//! `printf`-like message formatting used for error messages.
//!
//! A format is text with directives `%[!]X`.  Most directives take the next
//! argument and insert its string form, or its `inspect` form when `!` is
//! given; `%%` inserts a percent sign, and a backslash inserts the next
//! character literally.  The string forms of objects are computed by the
//! object system and handed in with the arguments.

use vstd::prelude::*;

verus! {

/// The two string forms of a value: `to_s` and `inspect`.
pub struct Rendered {
    pub to_s: Vec<u8>,
    pub inspected: Vec<u8>,
}

/// One formatting argument.
pub enum FormatArg {
    /// An integer, for `%d` and `%i`.
    Int(i64),
    /// Raw characters, for `%c` (one character), `%s` and `%l`.
    Chars(Rendered),
    /// A NUL-terminated string, for `%s`: the bytes before the first NUL
    /// are inserted; `inspected` is the inspect form of those bytes.
    CStr { bytes: Vec<u8>, inspected: Vec<u8> },
    /// A string with a length, for `%l`: the first `len` bytes are
    /// inserted; `inspected` is the inspect form of those bytes.
    Span { bytes: Vec<u8>, len: usize, inspected: Vec<u8> },
    /// An object, for `%f`, `%n`, `%C`, `%v` and `%S` (its own forms), `%t`
    /// (its class), `%T` (its real class) and `%Y`; `special` marks `nil`,
    /// `true` and `false`.
    Value { obj: Rendered, class: Rendered, real_class: Rendered, special: bool },
}

/// Why formatting failed.
#[derive(Clone, Copy, Debug, PartialEq, Eq, Structural)]
pub enum FormatError {
    /// `ArgumentError`: "malformed format string - %X" for the unknown specifier X.
    Malformed(u8),
}

/// The decimal digits of `n`.
pub open spec fn decimal_digits(n: nat) -> Seq<u8>
    decreases n,
{
    if n < 10 {
        seq![(48 + n) as u8]
    } else {
        decimal_digits(n / 10).push((48 + n % 10) as u8)
    }
}

/// The decimal text of `i`, with a leading `-` when negative.
pub open spec fn decimal(i: int) -> Seq<u8> {
    if i < 0 {
        seq![45u8] + decimal_digits((-i) as nat)
    } else {
        decimal_digits(i as nat)
    }
}

/// The `to_s` or `inspect` form.
pub open spec fn text_of(r: Rendered, insp: bool) -> Seq<u8> {
    if insp {
        r.inspected@
    } else {
        r.to_s@
    }
}

/// The bytes of `b` before its first NUL (all of `b` when it has none).
pub open spec fn until_nul(b: Seq<u8>) -> Seq<u8>
    decreases b.len(),
{
    if b.len() == 0 || b[0] == 0 {
        Seq::empty()
    } else {
        seq![b[0]] + until_nul(b.drop_first())
    }
}

/// Specifiers that take an argument.
pub open spec fn takes_argument(d: u8) -> bool {
    d == 99 || d == 100 || d == 105 || d == 102 || d == 108 || d == 110 || d == 115 || d == 116
        || d == 118 || d == 83 || d == 67 || d == 84 || d == 89
}

/// The text a directive with specifier `d` inserts for `arg`; `None` when
/// the argument is of the wrong kind.
pub open spec fn directive_text(d: u8, arg: FormatArg, insp: bool) -> Option<Seq<u8>> {
    match arg {
        FormatArg::Int(i) => if d == 100 || d == 105 {
            Some(decimal(i as int))
        } else {
            None
        },
        FormatArg::Chars(r) => if d == 99 || d == 115 || d == 108 {
            Some(text_of(r, insp))
        } else {
            None
        },
        FormatArg::CStr { bytes, inspected } => if d == 115 {
            Some(if insp { inspected@ } else { until_nul(bytes@) })
        } else {
            None
        },
        FormatArg::Span { bytes, len, inspected } => if d == 108 && len <= bytes@.len() {
            Some(if insp { inspected@ } else { bytes@.subrange(0, len as int) })
        } else {
            None
        },
        FormatArg::Value { obj, class, real_class, special } => if d == 102 || d == 110 || d
            == 67 || d == 118 || d == 83 {
            Some(text_of(obj, insp))
        } else if d == 116 {
            Some(text_of(class, insp))
        } else if d == 84 {
            Some(text_of(real_class, insp))
        } else if d == 89 {
            if special {
                Some(text_of(obj, true))
            } else {
                Some(text_of(real_class, insp))
            }
        } else {
            None
        },
    }
}

/// The `inspect` form of the string `%`.
pub open spec fn quoted_percent() -> Seq<u8> {
    seq![34u8, 37u8, 34u8]
}

/// How formatting ends.
pub enum FormatOutcome {
    Done(Seq<u8>),
    Malformed(u8),
    BadArguments,
}

/// Formatting `fmt` from position `p`, with pending literal text starting at
/// `b`, the next argument at `k`, and `out` produced so far.
pub open spec fn format_from(
    fmt: Seq<u8>,
    args: Seq<FormatArg>,
    p: int,
    b: int,
    k: int,
    out: Seq<u8>,
) -> FormatOutcome
    decreases fmt.len() - p,
{
    if p < 0 || b < 0 || b > p || p >= fmt.len() {
        FormatOutcome::Done(out + fmt.subrange(b, fmt.len() as int))
    } else if fmt[p] == 37 {
        let insp = p + 1 < fmt.len() && fmt[p + 1] == 33;
        let q = if insp { p + 2 } else { p + 1 };
        if q >= fmt.len() {
            FormatOutcome::Done(out + fmt.subrange(b, fmt.len() as int))
        } else {
            let d = fmt[q];
            let lit = out + fmt.subrange(b, p);
            if d == 37 {
                format_from(
                    fmt,
                    args,
                    q + 1,
                    q + 1,
                    k,
                    lit + if insp { quoted_percent() } else { seq![37u8] },
                )
            } else if takes_argument(d) {
                if k < 0 || k >= args.len() {
                    FormatOutcome::BadArguments
                } else {
                    match directive_text(d, args[k], insp) {
                        None => FormatOutcome::BadArguments,
                        Some(t) => format_from(fmt, args, q + 1, q + 1, k + 1, lit + t),
                    }
                }
            } else {
                FormatOutcome::Malformed(d)
            }
        }
    } else if fmt[p] == 92 {
        if p + 1 >= fmt.len() {
            FormatOutcome::Done(out + fmt.subrange(b, fmt.len() as int))
        } else {
            format_from(fmt, args, p + 2, p + 2, k, out + fmt.subrange(b, p) + seq![fmt[p + 1]])
        }
    } else {
        format_from(fmt, args, p + 1, b, k, out)
    }
}

/// Formatting all of `fmt` with `args`.
pub open spec fn spec_vformat(fmt: Seq<u8>, args: Seq<FormatArg>) -> FormatOutcome {
    format_from(fmt, args, 0, 0, 0, Seq::empty())
}

pub(crate) fn push_all(out: &mut Vec<u8>, src: &Vec<u8>)
    ensures
        final(out)@ == old(out)@ + src@,
{
    let mut i: usize = 0;
    while i < src.len()
        invariant
            i <= src@.len(),
            out@ == old(out)@ + src@.subrange(0, i as int),
        decreases src@.len() - i,
    {
        out.push(src[i]);
        i = i + 1;
        proof {
            assert(out@ =~= old(out)@ + src@.subrange(0, i as int));
        }
    }
    proof {
        assert(src@.subrange(0, src@.len() as int) =~= src@);
    }
}

fn push_range(out: &mut Vec<u8>, src: &[u8], b: usize, e: usize)
    requires
        b <= e <= src@.len(),
    ensures
        final(out)@ == old(out)@ + src@.subrange(b as int, e as int),
{
    let mut i: usize = b;
    while i < e
        invariant
            b <= i <= e <= src@.len(),
            out@ == old(out)@ + src@.subrange(b as int, i as int),
        decreases e - i,
    {
        out.push(src[i]);
        i = i + 1;
        proof {
            assert(out@ =~= old(out)@ + src@.subrange(b as int, i as int));
        }
    }
}

proof fn lemma_decimal_digits_len(n: nat)
    ensures
        decimal_digits(n).len() >= 1,
        n < 10 ==> decimal_digits(n).len() == 1,
    decreases n,
{
    if n >= 10 {
        lemma_decimal_digits_len(n / 10);
    }
}

/// The decimal digits of `n`.
fn digits_of(n: u64) -> (r: Vec<u8>)
    ensures
        r@ == decimal_digits(n as nat),
{
    let mut rev: Vec<u8> = Vec::new();
    let mut m: u64 = n;
    let ghost mut done: Seq<u8> = Seq::empty();
    proof {
        assert(decimal_digits(n as nat) == decimal_digits(m as nat) + done);
    }
    while m >= 10
        invariant
            decimal_digits(n as nat) == decimal_digits(m as nat) + done,
            rev@.len() == done.len(),
            forall|j: int| 0 <= j < done.len() ==> rev@[j] == done[done.len() - 1 - j],
        decreases m,
    {
        let d = (48 + m % 10) as u8;
        rev.push(d);
        proof {
            let done2 = seq![d] + done;
            assert(decimal_digits(m as nat) == decimal_digits((m / 10) as nat).push(d));
            assert(decimal_digits(m as nat) + done =~= decimal_digits((m / 10) as nat) + done2);
            assert forall|j: int| 0 <= j < done2.len() implies rev@[j] == done2[done2.len() - 1 - j] by {}
            done = done2;
        }
        m = m / 10;
    }
    let d = (48 + m) as u8;
    rev.push(d);
    proof {
        let done2 = seq![d] + done;
        assert(decimal_digits(n as nat) =~= done2);
        assert forall|j: int| 0 <= j < done2.len() implies rev@[j] == done2[done2.len() - 1 - j] by {}
        done = done2;
    }
    let mut out: Vec<u8> = Vec::new();
    let mut i: usize = rev.len();
    while i > 0
        invariant
            i <= rev@.len(),
            rev@.len() == done.len(),
            forall|j: int| 0 <= j < done.len() ==> rev@[j] == done[done.len() - 1 - j],
            out@ == done.subrange(0, (done.len() - i) as int),
        decreases i,
    {
        i = i - 1;
        out.push(rev[i]);
        proof {
            assert(out@ =~= done.subrange(0, (done.len() - i) as int));
        }
    }
    proof {
        assert(out@ =~= done);
    }
    out
}

/// The decimal text of `i`.
pub fn int_to_decimal(i: i64) -> (r: Vec<u8>)
    ensures
        r@ == decimal(i as int),
{
    if i < 0 {
        let mag: u64 = (0i128 - i as i128) as u64;
        let digits = digits_of(mag);
        let mut out: Vec<u8> = Vec::new();
        out.push(45u8);
        push_all(&mut out, &digits);
        proof {
            assert(out@ =~= seq![45u8] + decimal_digits((-(i as int)) as nat));
        }
        out
    } else {
        digits_of(i as u64)
    }
}

fn copy_text(r: &Rendered, insp: bool) -> (v: Vec<u8>)
    ensures
        v@ == text_of(*r, insp),
{
    let mut v: Vec<u8> = Vec::new();
    if insp {
        push_all(&mut v, &r.inspected);
    } else {
        push_all(&mut v, &r.to_s);
    }
    proof {
        assert(v@ =~= text_of(*r, insp));
    }
    v
}

/// The first `n` bytes of `b`.
fn copy_prefix(b: &Vec<u8>, n: usize) -> (v: Vec<u8>)
    requires
        n <= b@.len(),
    ensures
        v@ == b@.subrange(0, n as int),
{
    let mut v: Vec<u8> = Vec::new();
    let mut k: usize = 0;
    while k < n
        invariant
            k <= n <= b@.len(),
            v@ == b@.subrange(0, k as int),
        decreases n - k,
    {
        v.push(b[k]);
        k = k + 1;
        proof {
            assert(v@ =~= b@.subrange(0, k as int));
        }
    }
    v
}

/// The suffix of `b` from `k` on, cut at its first NUL, is what is left
/// after the part before `k` (which holds no NUL).
proof fn lemma_until_nul_step(b: Seq<u8>, k: int)
    requires
        0 <= k <= b.len(),
        forall|j: int| 0 <= j < k ==> b[j] != 0,
    ensures
        until_nul(b) == b.subrange(0, k) + until_nul(b.subrange(k, b.len() as int)),
    decreases k,
{
    if k > 0 {
        lemma_until_nul_step(b.drop_first(), k - 1);
        assert(b.drop_first().subrange(k - 1, b.len() - 1) =~= b.subrange(k, b.len() as int));
        assert(seq![b[0]] + b.drop_first().subrange(0, k - 1) =~= b.subrange(0, k));
    } else {
        assert(b.subrange(0, 0) + b =~= b);
        assert(b.subrange(0, b.len() as int) =~= b);
    }
}

/// The bytes of `b` before its first NUL.
fn copy_until_nul(b: &Vec<u8>) -> (v: Vec<u8>)
    ensures
        v@ == until_nul(b@),
{
    let mut k: usize = 0;
    while k < b.len() && b[k] != 0
        invariant
            k <= b@.len(),
            forall|j: int| 0 <= j < k ==> b@[j] != 0,
        decreases b@.len() - k,
    {
        k = k + 1;
    }
    proof {
        lemma_until_nul_step(b@, k as int);
        assert(until_nul(b@.subrange(k as int, b@.len() as int)) =~= Seq::<u8>::empty());
        assert(b@.subrange(0, k as int) + Seq::<u8>::empty() =~= b@.subrange(0, k as int));
    }
    copy_prefix(b, k)
}

fn is_argument_specifier(d: u8) -> (r: bool)
    ensures
        r == takes_argument(d),
{
    d == 99 || d == 100 || d == 105 || d == 102 || d == 108 || d == 110 || d == 115 || d == 116
        || d == 118 || d == 83 || d == 67 || d == 84 || d == 89
}

fn render_directive(d: u8, arg: &FormatArg, insp: bool) -> (r: Option<Vec<u8>>)
    ensures
        match directive_text(d, *arg, insp) {
            None => r is None,
            Some(t) => r matches Some(v) && v@ == t,
        },
{
    match arg {
        FormatArg::Int(i) => {
            if d == 100 || d == 105 {
                Some(int_to_decimal(*i))
            } else {
                None
            }
        },
        FormatArg::Chars(r) => {
            if d == 99 || d == 115 || d == 108 {
                Some(copy_text(r, insp))
            } else {
                None
            }
        },
        FormatArg::CStr { bytes, inspected } => {
            if d == 115 {
                if insp {
                    Some(copy_prefix(inspected, inspected.len()))
                } else {
                    Some(copy_until_nul(bytes))
                }
            } else {
                None
            }
        },
        FormatArg::Span { bytes, len, inspected } => {
            if d == 108 && *len <= bytes.len() {
                if insp {
                    Some(copy_prefix(inspected, inspected.len()))
                } else {
                    Some(copy_prefix(bytes, *len))
                }
            } else {
                None
            }
        },
        FormatArg::Value { obj, class, real_class, special } => {
            if d == 102 || d == 110 || d == 67 || d == 118 || d == 83 {
                Some(copy_text(obj, insp))
            } else if d == 116 {
                Some(copy_text(class, insp))
            } else if d == 84 {
                Some(copy_text(real_class, insp))
            } else if d == 89 {
                if *special {
                    Some(copy_text(obj, true))
                } else {
                    Some(copy_text(real_class, insp))
                }
            } else {
                None
            }
        },
    }
}

/// Formats `format` with `args`: text is copied, `%[!]X` directives insert
/// the string (or, with `!`, inspect) form of the next argument, `%%`
/// inserts `%`, and a backslash inserts the next character.  An unknown
/// specifier fails with [`FormatError::Malformed`].  The arguments must
/// match the directives, as the arguments of any printf-style format must.
pub fn mrb_vformat(format: &[u8], args: &Vec<FormatArg>) -> (r: Result<Vec<u8>, FormatError>)
    requires
        !(spec_vformat(format@, args@) is BadArguments),
    ensures
        match spec_vformat(format@, args@) {
            FormatOutcome::Done(t) => r matches Ok(v) && v@ == t,
            FormatOutcome::Malformed(d) => r == Err::<Vec<u8>, FormatError>(FormatError::Malformed(d)),
            FormatOutcome::BadArguments => false,
        },
{
    let len = format.len();
    let mut p: usize = 0;
    let mut b: usize = 0;
    let mut k: usize = 0;
    let mut out: Vec<u8> = Vec::new();
    while p < len
        invariant
            len == format@.len(),
            b <= p <= len,
            k <= args@.len(),
            spec_vformat(format@, args@) == format_from(format@, args@, p as int, b as int, k as int, out@),
            !(spec_vformat(format@, args@) is BadArguments),
        ensures
            b <= len,
            spec_vformat(format@, args@) == format_from(format@, args@, p as int, b as int, k as int, out@),
            format_from(format@, args@, p as int, b as int, k as int, out@) == FormatOutcome::Done(
                out@ + format@.subrange(b as int, len as int),
            ),
        decreases len - p,
    {
        let c = format[p];
        if c == 37 {
            let insp = p + 1 < len && format[p + 1] == 33;
            let q = if insp { p + 2 } else { p + 1 };
            if q >= len {
                break;
            }
            let d = format[q];
            if d == 37 {
                let ghost out0 = out@;
                push_range(&mut out, format, b, p);
                if insp {
                    out.push(34u8);
                    out.push(37u8);
                    out.push(34u8);
                } else {
                    out.push(37u8);
                }
                proof {
                    let lit = format@.subrange(b as int, p as int);
                    let ins = if insp { quoted_percent() } else { seq![37u8] };
                    assert(out@ =~= out0 + lit + ins);
                }
                p = q + 1;
                b = q + 1;
            } else if is_argument_specifier(d) {
                assert(k < args.len());
                let t = render_directive(d, &args[k], insp);
                match t {
                    None => {
                        return Err(FormatError::Malformed(d));
                    },
                    Some(text) => {
                        let ghost out0 = out@;
                        push_range(&mut out, format, b, p);
                        push_all(&mut out, &text);
                        proof {
                            assert(out@ =~= out0 + format@.subrange(b as int, p as int) + text@);
                        }
                        k = k + 1;
                        p = q + 1;
                        b = q + 1;
                    },
                }
            } else {
                return Err(FormatError::Malformed(d));
            }
        } else if c == 92 {
            if p + 1 >= len {
                break;
            }
            let ghost out0 = out@;
            push_range(&mut out, format, b, p);
            out.push(format[p + 1]);
            proof {
                assert(out@ =~= out0 + format@.subrange(b as int, p as int) + seq![format@[p + 1]]);
            }
            p = p + 2;
            b = p;
        } else {
            p = p + 1;
        }
    }
    push_range(&mut out, format, b, len);
    Ok(out)
}

/// Formats `format` with `args` (see [`mrb_vformat`]).
pub fn mrb_format(format: &[u8], args: &Vec<FormatArg>) -> (r: Result<Vec<u8>, FormatError>)
    requires
        !(spec_vformat(format@, args@) is BadArguments),
    ensures
        match spec_vformat(format@, args@) {
            FormatOutcome::Done(t) => r matches Ok(v) && v@ == t,
            FormatOutcome::Malformed(d) => r == Err::<Vec<u8>, FormatError>(FormatError::Malformed(d)),
            FormatOutcome::BadArguments => false,
        },
{
    mrb_vformat(format, args)
}

proof fn lemma_plain_text_from(fmt: Seq<u8>, args: Seq<FormatArg>, p: int)
    requires
        0 <= p <= fmt.len(),
        forall|j: int| 0 <= j < fmt.len() ==> #[trigger] fmt[j] != 37 && fmt[j] != 92,
    ensures
        format_from(fmt, args, p, 0, 0, Seq::empty()) == FormatOutcome::Done(fmt),
    decreases fmt.len() - p,
{
    if p < fmt.len() {
        lemma_plain_text_from(fmt, args, p + 1);
    } else {
        assert(Seq::<u8>::empty() + fmt.subrange(0, fmt.len() as int) =~= fmt);
    }
}

/// A format with no directive and no escape is its own result, whatever the
/// arguments.
pub proof fn lemma_plain_text_unchanged(fmt: Seq<u8>, args: Seq<FormatArg>)
    requires
        forall|j: int| 0 <= j < fmt.len() ==> #[trigger] fmt[j] != 37 && fmt[j] != 92,
    ensures
        spec_vformat(fmt, args) == FormatOutcome::Done(fmt),
{
    lemma_plain_text_from(fmt, args, 0);
}

/// Text without directives and escapes.
pub open spec fn plain_text(s: Seq<u8>) -> bool {
    forall|j: int| 0 <= j < s.len() ==> #[trigger] s[j] != 37 && s[j] != 92
}

/// The directive `%X`, or `%!X` when `insp`, for the specifier `d`.
pub open spec fn directive(insp: bool, d: u8) -> Seq<u8> {
    if insp {
        seq![37u8, 33u8, d]
    } else {
        seq![37u8, d]
    }
}

/// A run of plain text from `p` to `e` is passed over without output.
proof fn lemma_plain_run(
    fmt: Seq<u8>,
    args: Seq<FormatArg>,
    p: int,
    b: int,
    k: int,
    out: Seq<u8>,
    e: int,
)
    requires
        0 <= b <= p <= e <= fmt.len(),
        forall|j: int| p <= j < e ==> #[trigger] fmt[j] != 37 && fmt[j] != 92,
    ensures
        format_from(fmt, args, p, b, k, out) == format_from(fmt, args, e, b, k, out),
    decreases e - p,
{
    if p < e {
        lemma_plain_run(fmt, args, p + 1, b, k, out, e);
    }
}

/// One directive with plain text around it inserts what the directive gives
/// for its one argument.
proof fn lemma_one_directive(
    pre: Seq<u8>,
    post: Seq<u8>,
    insp: bool,
    d: u8,
    arg: FormatArg,
    t: Seq<u8>,
)
    requires
        plain_text(pre),
        plain_text(post),
        d != 33 && d != 37,
        takes_argument(d),
        directive_text(d, arg, insp) == Some(t),
    ensures
        spec_vformat(pre + directive(insp, d) + post, seq![arg]) == FormatOutcome::Done(pre + t + post),
{
    let fmt = pre + directive(insp, d) + post;
    let args = seq![arg];
    let p = pre.len() as int;
    let q = if insp { p + 2 } else { p + 1 };
    let n = fmt.len() as int;
    assert forall|j: int| 0 <= j < p implies #[trigger] fmt[j] != 37 && fmt[j] != 92 by {
        assert(fmt[j] == pre[j]);
    }
    lemma_plain_run(fmt, args, 0, 0, 0, Seq::empty(), p);
    assert(fmt[p] == 37);
    assert(fmt[q] == d);
    if !insp {
        assert(fmt[p + 1] == d);
    } else {
        assert(fmt[p + 1] == 33);
    }
    assert(Seq::<u8>::empty() + fmt.subrange(0, p) =~= pre);
    assert(format_from(fmt, args, p, 0, 0, Seq::empty()) == format_from(fmt, args, q + 1, q + 1, 1, pre + t));
    assert forall|j: int| q + 1 <= j < n implies #[trigger] fmt[j] != 37 && fmt[j] != 92 by {
        assert(fmt[j] == post[j - q - 1]);
    }
    lemma_plain_run(fmt, args, q + 1, q + 1, 1, pre + t, n);
    assert(fmt.subrange(q + 1, n) =~= post);
}

/// `%T` (or `%!T`) inserts the `to_s` (or `inspect`) form of the real class
/// of its object argument, and the text around it is kept.
pub proof fn lemma_format_real_class(
    pre: Seq<u8>,
    post: Seq<u8>,
    insp: bool,
    obj: Rendered,
    class: Rendered,
    real_class: Rendered,
    special: bool,
)
    requires
        plain_text(pre),
        plain_text(post),
    ensures
        spec_vformat(
            pre + directive(insp, 84) + post,
            seq![FormatArg::Value { obj, class, real_class, special }],
        ) == FormatOutcome::Done(pre + text_of(real_class, insp) + post),
{
    lemma_one_directive(pre, post, insp, 84, FormatArg::Value { obj, class, real_class, special }, text_of(real_class, insp));
}

/// `%t` (or `%!t`) inserts the form of the class of its object argument.
pub proof fn lemma_format_class(
    pre: Seq<u8>,
    post: Seq<u8>,
    insp: bool,
    obj: Rendered,
    class: Rendered,
    real_class: Rendered,
    special: bool,
)
    requires
        plain_text(pre),
        plain_text(post),
    ensures
        spec_vformat(
            pre + directive(insp, 116) + post,
            seq![FormatArg::Value { obj, class, real_class, special }],
        ) == FormatOutcome::Done(pre + text_of(class, insp) + post),
{
    lemma_one_directive(pre, post, insp, 116, FormatArg::Value { obj, class, real_class, special }, text_of(class, insp));
}

/// `%S`, `%v`, `%C`, `%f` and `%n` (or their `%!` forms) insert the form of
/// their object argument itself.
pub proof fn lemma_format_object(
    pre: Seq<u8>,
    post: Seq<u8>,
    insp: bool,
    d: u8,
    obj: Rendered,
    class: Rendered,
    real_class: Rendered,
    special: bool,
)
    requires
        plain_text(pre),
        plain_text(post),
        d == 83 || d == 118 || d == 67 || d == 102 || d == 110,
    ensures
        spec_vformat(
            pre + directive(insp, d) + post,
            seq![FormatArg::Value { obj, class, real_class, special }],
        ) == FormatOutcome::Done(pre + text_of(obj, insp) + post),
{
    lemma_one_directive(pre, post, insp, d, FormatArg::Value { obj, class, real_class, special }, text_of(obj, insp));
}

/// `%Y` inserts the inspect form of `nil`, `true` and `false`, and the form
/// of the real class of any other object.
pub proof fn lemma_format_y(
    pre: Seq<u8>,
    post: Seq<u8>,
    insp: bool,
    obj: Rendered,
    class: Rendered,
    real_class: Rendered,
    special: bool,
)
    requires
        plain_text(pre),
        plain_text(post),
    ensures
        spec_vformat(
            pre + directive(insp, 89) + post,
            seq![FormatArg::Value { obj, class, real_class, special }],
        ) == FormatOutcome::Done(
            pre + (if special { obj.inspected@ } else { text_of(real_class, insp) }) + post,
        ),
{
    let t = if special { obj.inspected@ } else { text_of(real_class, insp) };
    lemma_one_directive(pre, post, insp, 89, FormatArg::Value { obj, class, real_class, special }, t);
}

/// `%d` and `%i` insert the decimal text of their integer argument.
pub proof fn lemma_format_int(pre: Seq<u8>, post: Seq<u8>, insp: bool, d: u8, i: i64)
    requires
        plain_text(pre),
        plain_text(post),
        d == 100 || d == 105,
    ensures
        spec_vformat(pre + directive(insp, d) + post, seq![FormatArg::Int(i)])
            == FormatOutcome::Done(pre + decimal(i as int) + post),
{
    lemma_one_directive(pre, post, insp, d, FormatArg::Int(i), decimal(i as int));
}

/// `%s` of a NUL-terminated string inserts its bytes up to the first NUL,
/// and `%!s` its inspect form.
pub proof fn lemma_format_c_string(
    pre: Seq<u8>,
    post: Seq<u8>,
    insp: bool,
    bytes: Vec<u8>,
    inspected: Vec<u8>,
)
    requires
        plain_text(pre),
        plain_text(post),
    ensures
        spec_vformat(pre + directive(insp, 115) + post, seq![FormatArg::CStr { bytes, inspected }])
            == FormatOutcome::Done(
            pre + (if insp { inspected@ } else { until_nul(bytes@) }) + post,
        ),
{
    let t = if insp { inspected@ } else { until_nul(bytes@) };
    lemma_one_directive(pre, post, insp, 115, FormatArg::CStr { bytes, inspected }, t);
}

/// `%c`, `%s` and `%l` of raw characters insert their `to_s` form, and the
/// `%!` forms their inspect form.
pub proof fn lemma_format_chars(pre: Seq<u8>, post: Seq<u8>, insp: bool, d: u8, r: Rendered)
    requires
        plain_text(pre),
        plain_text(post),
        d == 99 || d == 115 || d == 108,
    ensures
        spec_vformat(pre + directive(insp, d) + post, seq![FormatArg::Chars(r)])
            == FormatOutcome::Done(pre + text_of(r, insp) + post),
{
    lemma_one_directive(pre, post, insp, d, FormatArg::Chars(r), text_of(r, insp));
}

/// `%l` of a string with a length inserts its first `len` bytes, and `%!l`
/// its inspect form.
pub proof fn lemma_format_span(
    pre: Seq<u8>,
    post: Seq<u8>,
    insp: bool,
    bytes: Vec<u8>,
    len: usize,
    inspected: Vec<u8>,
)
    requires
        plain_text(pre),
        plain_text(post),
        len <= bytes@.len(),
    ensures
        spec_vformat(pre + directive(insp, 108) + post, seq![FormatArg::Span { bytes, len, inspected }])
            == FormatOutcome::Done(
            pre + (if insp { inspected@ } else { bytes@.subrange(0, len as int) }) + post,
        ),
{
    let t = if insp { inspected@ } else { bytes@.subrange(0, len as int) };
    lemma_one_directive(pre, post, insp, 108, FormatArg::Span { bytes, len, inspected }, t);
}

/// `%%` inserts a percent sign and `%!%` the quoted percent sign `"%"`,
/// whatever the arguments; the text around is kept.
pub proof fn lemma_format_percent(pre: Seq<u8>, post: Seq<u8>, insp: bool, args: Seq<FormatArg>)
    requires
        plain_text(pre),
        plain_text(post),
    ensures
        spec_vformat(pre + directive(insp, 37) + post, args) == FormatOutcome::Done(
            pre + (if insp { seq![34u8, 37u8, 34u8] } else { seq![37u8] }) + post,
        ),
{
    let fmt = pre + directive(insp, 37) + post;
    let p = pre.len() as int;
    let q = if insp { p + 2 } else { p + 1 };
    let n = fmt.len() as int;
    let t = if insp { quoted_percent() } else { seq![37u8] };
    assert forall|j: int| 0 <= j < p implies #[trigger] fmt[j] != 37 && fmt[j] != 92 by {
        assert(fmt[j] == pre[j]);
    }
    lemma_plain_run(fmt, args, 0, 0, 0, Seq::empty(), p);
    assert(fmt[p] == 37);
    assert(fmt[q] == 37);
    if insp {
        assert(fmt[p + 1] == 33);
    }
    assert(Seq::<u8>::empty() + fmt.subrange(0, p) =~= pre);
    assert(format_from(fmt, args, p, 0, 0, Seq::empty()) == format_from(fmt, args, q + 1, q + 1, 0, pre + t));
    assert forall|j: int| q + 1 <= j < n implies #[trigger] fmt[j] != 37 && fmt[j] != 92 by {
        assert(fmt[j] == post[j - q - 1]);
    }
    lemma_plain_run(fmt, args, q + 1, q + 1, 0, pre + t, n);
    assert(fmt.subrange(q + 1, n) =~= post);
}

/// A backslash inserts the character after it as it is, whatever it is.
pub proof fn lemma_format_escape(pre: Seq<u8>, c: u8, post: Seq<u8>, args: Seq<FormatArg>)
    requires
        plain_text(pre),
        plain_text(post),
    ensures
        spec_vformat(pre + seq![92u8, c] + post, args) == FormatOutcome::Done(pre + seq![c] + post),
{
    let fmt = pre + seq![92u8, c] + post;
    let p = pre.len() as int;
    let n = fmt.len() as int;
    assert forall|j: int| 0 <= j < p implies #[trigger] fmt[j] != 37 && fmt[j] != 92 by {
        assert(fmt[j] == pre[j]);
    }
    lemma_plain_run(fmt, args, 0, 0, 0, Seq::empty(), p);
    assert(fmt[p] == 92 && fmt[p + 1] == c);
    assert(Seq::<u8>::empty() + fmt.subrange(0, p) + seq![c] =~= pre + seq![c]);
    assert forall|j: int| p + 2 <= j < n implies #[trigger] fmt[j] != 37 && fmt[j] != 92 by {
        assert(fmt[j] == post[j - p - 2]);
    }
    lemma_plain_run(fmt, args, p + 2, p + 2, 0, pre + seq![c], n);
    assert(fmt.subrange(p + 2, n) =~= post);
}

/// A specifier that is none of `c d i f l n s t v S C T Y %` fails as
/// malformed, naming that specifier.
pub proof fn lemma_format_unknown(pre: Seq<u8>, post: Seq<u8>, insp: bool, d: u8, args: Seq<FormatArg>)
    requires
        plain_text(pre),
        d != 99 && d != 100 && d != 105 && d != 102 && d != 108 && d != 110 && d != 115 && d != 116
            && d != 118 && d != 83 && d != 67 && d != 84 && d != 89 && d != 37 && d != 33,
    ensures
        spec_vformat(pre + directive(insp, d) + post, args) == FormatOutcome::Malformed(d),
{
    let fmt = pre + directive(insp, d) + post;
    let p = pre.len() as int;
    let q = if insp { p + 2 } else { p + 1 };
    assert forall|j: int| 0 <= j < p implies #[trigger] fmt[j] != 37 && fmt[j] != 92 by {
        assert(fmt[j] == pre[j]);
    }
    lemma_plain_run(fmt, args, 0, 0, 0, Seq::empty(), p);
    assert(fmt[p] == 37);
    assert(fmt[q] == d);
    if insp {
        assert(fmt[p + 1] == 33);
    } else {
        assert(fmt[p + 1] == d);
    }
}

} // verus!
