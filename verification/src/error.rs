//! Exceptions: their printable forms, what `raise` does with its arguments,
//! and what may be stored as a backtrace.  Reading an exception's instance
//! variables and calling methods on objects is the object system's work;
//! these functions take what it found as plain values.

use vstd::prelude::*;
use crate::vformat::{decimal, int_to_decimal, push_all};

verus! {

/// `": "`
pub open spec fn colon_space() -> Seq<u8> {
    seq![58u8, 32u8]
}

/// The `inspect` form of an exception of class `cname`: with a known source
/// position, `"file:line: message (Class)"`, or `"file:line: Class"` when
/// the message is empty or absent; otherwise `"Class: message"`, or just
/// `"Class"`.  `mesg` is the string form of the message, `None` when the
/// message is `nil`; `file` and `line` are given only when the exception
/// records a file name (a string) and a line (an integer).
pub open spec fn exc_inspect_text(
    cname: Seq<u8>,
    mesg: Option<Seq<u8>>,
    file: Option<Seq<u8>>,
    line: Option<i64>,
) -> Seq<u8> {
    let append = mesg is Some && mesg->0.len() > 0;
    if file is Some && line is Some {
        let pos = file->0 + seq![58u8] + decimal(line->0 as int) + colon_space();
        if append {
            pos + mesg->0 + seq![32u8, 40u8] + cname + seq![41u8]
        } else {
            pos + cname
        }
    } else if append {
        cname + colon_space() + mesg->0
    } else {
        cname
    }
}

/// The shape of the `inspect` form: with a known position it starts with
/// the file name and a colon, otherwise with the class name; a non-empty
/// message ends it (without a position) or is followed by the class name
/// in parentheses (with one); without a message it ends with the class name.
pub proof fn lemma_inspect_shape(
    cname: Seq<u8>,
    mesg: Option<Seq<u8>>,
    file: Option<Seq<u8>>,
    line: Option<i64>,
)
    ensures
        ({
            let text = exc_inspect_text(cname, mesg, file, line);
            let has_pos = file is Some && line is Some;
            let has_mesg = mesg is Some && mesg->0.len() > 0;
            &&& has_pos ==> text.len() > file->0.len() && text.subrange(0, file->0.len() as int)
                == file->0 && text[file->0.len() as int] == 58u8
            &&& !has_pos ==> text.len() >= cname.len() && text.subrange(0, cname.len() as int)
                == cname
            &&& has_mesg && !has_pos ==> text.len() >= mesg->0.len() && text.subrange(
                text.len() - mesg->0.len(),
                text.len() as int,
            ) == mesg->0
            &&& has_mesg && has_pos ==> text.len() >= cname.len() + 3 && text.subrange(
                text.len() - cname.len() - 3,
                text.len() as int,
            ) == seq![32u8, 40u8] + cname + seq![41u8]
            &&& !has_mesg ==> text.len() >= cname.len() && text.subrange(
                text.len() - cname.len(),
                text.len() as int,
            ) == cname
        }),
{
    let text = exc_inspect_text(cname, mesg, file, line);
    if file is Some && line is Some {
        let pos = file->0 + seq![58u8] + decimal(line->0 as int) + colon_space();
        assert(pos.subrange(0, file->0.len() as int) =~= file->0);
        if mesg is Some && mesg->0.len() > 0 {
            let tail = seq![32u8, 40u8] + cname + seq![41u8];
            assert(text =~= (pos + mesg->0) + tail);
            assert(text.subrange(0, file->0.len() as int) =~= file->0);
            assert(text.subrange(text.len() - cname.len() - 3, text.len() as int) =~= tail);
        } else {
            assert(text =~= pos + cname);
            assert(text.subrange(0, file->0.len() as int) =~= file->0);
            assert(text.subrange(text.len() - cname.len(), text.len() as int) =~= cname);
        }
    } else if mesg is Some && mesg->0.len() > 0 {
        assert(text =~= (cname + colon_space()) + mesg->0);
        assert(text.subrange(0, cname.len() as int) =~= cname);
        assert(text.subrange(text.len() - mesg->0.len(), text.len() as int) =~= mesg->0);
    } else {
        assert(text.subrange(0, cname.len() as int) =~= cname);
        assert(text.subrange(text.len() - cname.len(), text.len() as int) =~= cname);
    }
}

/// `Exception#inspect` for an exception of class `cname` (see
/// [`exc_inspect_text`]).
pub fn exc_inspect(
    cname: &Vec<u8>,
    mesg: &Option<Vec<u8>>,
    file: &Option<Vec<u8>>,
    line: Option<i64>,
) -> (r: Vec<u8>)
    ensures
        r@ == exc_inspect_text(
            cname@,
            match mesg {
                Some(m) => Some(m@),
                None => None,
            },
            match file {
                Some(f) => Some(f@),
                None => None,
            },
            line,
        ),
{
    let append = match mesg {
        Some(m) => m.len() > 0,
        None => false,
    };
    let mut out: Vec<u8> = Vec::new();
    match (file, line) {
        (Some(f), Some(l)) => {
            push_all(&mut out, f);
            out.push(58u8);
            let digits = int_to_decimal(l);
            push_all(&mut out, &digits);
            out.push(58u8);
            out.push(32u8);
            if append {
                if let Some(m) = mesg {
                    push_all(&mut out, m);
                }
                out.push(32u8);
                out.push(40u8);
                push_all(&mut out, cname);
                out.push(41u8);
            } else {
                push_all(&mut out, cname);
            }
        },
        _ => {
            push_all(&mut out, cname);
            if append {
                out.push(58u8);
                out.push(32u8);
                if let Some(m) = mesg {
                    push_all(&mut out, m);
                }
            }
        },
    }
    proof {
        let mv = match mesg {
            Some(m) => Some(m@),
            None => None,
        };
        let fv = match file {
            Some(f) => Some(f@),
            None => None,
        };
        assert(out@ =~= exc_inspect_text(cname@, mv, fv, line));
    }
    out
}

/// `Exception#to_s`: the message when it is a string, otherwise the name of
/// the exception's class.
pub fn exc_to_s(cname: &Vec<u8>, mesg: &Option<Vec<u8>>) -> (r: Vec<u8>)
    ensures
        r@ == match mesg {
            Some(m) => m@,
            None => cname@,
        },
{
    let mut out: Vec<u8> = Vec::new();
    match mesg {
        Some(m) => push_all(&mut out, m),
        None => push_all(&mut out, cname),
    }
    proof {
        assert(out@ =~= match mesg {
            Some(m) => m@,
            None => cname@,
        });
    }
    out
}

/// The type of a value, as far as `raise` and the backtrace checks look at it.
#[derive(Clone, Copy, Debug, PartialEq, Eq, Structural)]
pub enum ValueTag {
    Nil,
    String,
    Array,
    Other,
}

/// Why an exception could not be made or changed.
#[derive(Clone, Copy, Debug, PartialEq, Eq, Structural)]
pub enum ExceptionError {
    /// `TypeError`: "backtrace must be Array of String".
    BacktraceNotStrings,
}

/// A backtrace given to an exception must be an array of strings.
pub open spec fn valid_backtrace(backtrace: ValueTag, elements: Seq<ValueTag>) -> bool {
    backtrace == ValueTag::Array && forall|k: int|
        0 <= k < elements.len() ==> #[trigger] elements[k] == ValueTag::String
}

/// Checks a value about to be stored as an exception's backtrace: `backtrace`
/// is its type and, for an array, `elements` the types of its elements.
pub fn set_backtrace(backtrace: ValueTag, elements: &Vec<ValueTag>) -> (r: Result<
    (),
    ExceptionError,
>)
    ensures
        r is Ok <==> valid_backtrace(backtrace, elements@),
        r is Err ==> r == Err::<(), ExceptionError>(ExceptionError::BacktraceNotStrings),
{
    if backtrace != ValueTag::Array {
        return Err(ExceptionError::BacktraceNotStrings);
    }
    let mut k: usize = 0;
    while k < elements.len()
        invariant
            k <= elements@.len(),
            backtrace == ValueTag::Array,
            forall|j: int| 0 <= j < k ==> #[trigger] elements@[j] == ValueTag::String,
        decreases elements@.len() - k,
    {
        if elements[k] != ValueTag::String {
            return Err(ExceptionError::BacktraceNotStrings);
        }
        k = k + 1;
    }
    Ok(())
}

/// What `raise` (and `Kernel#raise`) does with its `argc` arguments, the
/// first of which has type `first`.
#[derive(Clone, Copy, Debug, PartialEq, Eq, Structural)]
pub enum ExceptionPlan {
    /// No exception: the result is `nil`.
    Nil,
    /// The message is `nil`, which is no exception: `Exception` is raised
    /// with "exception object expected".
    NilMessage,
    /// The result is a new `RuntimeError` whose message is the string.
    RuntimeError,
    /// The result is what the first argument's `exception` method returns
    /// when given the next `nargs` arguments (`TypeError` "exception
    /// class/object expected" when it has no such method); it must be an
    /// exception (else `Exception` "exception object expected" is raised),
    /// and when `backtrace` holds the third argument becomes its backtrace.
    CallException { nargs: u8, backtrace: bool },
    /// `ArgumentError`: "wrong number of arguments (argc for 0..3)".
    WrongArgumentCount,
}

/// What `raise` does with its arguments.
pub open spec fn spec_exception_plan(argc: i64, first: ValueTag) -> ExceptionPlan {
    if argc == 0 {
        ExceptionPlan::Nil
    } else if argc == 1 {
        if first == ValueTag::Nil {
            ExceptionPlan::NilMessage
        } else if first == ValueTag::String {
            ExceptionPlan::RuntimeError
        } else {
            ExceptionPlan::CallException { nargs: 0, backtrace: false }
        }
    } else if argc == 2 || argc == 3 {
        ExceptionPlan::CallException { nargs: 1, backtrace: argc == 3 }
    } else {
        ExceptionPlan::WrongArgumentCount
    }
}

/// Decides how an exception is made from the `argc` arguments of `raise`,
/// the first of which has type `first`.
pub fn mrb_make_exception(argc: i64, first: ValueTag) -> (r: ExceptionPlan)
    ensures
        r == spec_exception_plan(argc, first),
{
    match argc {
        0 => ExceptionPlan::Nil,
        1 => {
            if first == ValueTag::Nil {
                ExceptionPlan::NilMessage
            } else if first == ValueTag::String {
                ExceptionPlan::RuntimeError
            } else {
                ExceptionPlan::CallException { nargs: 0, backtrace: false }
            }
        },
        2 | 3 => ExceptionPlan::CallException { nargs: 1, backtrace: argc == 3 },
        _ => ExceptionPlan::WrongArgumentCount,
    }
}

/// What `Exception#exception` gives back.
#[derive(Clone, Copy, Debug, PartialEq, Eq, Structural)]
pub enum ExceptionCopy {
    /// The receiver itself.
    Receiver,
    /// A clone of the receiver whose message is the argument.
    CloneWithMessage,
}

/// Decides what `Exception#exception` returns, given its argument count
/// `argc` and whether the argument is the receiver itself.
pub fn exc_exception(argc: i64, same_object: bool) -> (r: ExceptionCopy)
    ensures
        r == (if argc == 0 || same_object {
            ExceptionCopy::Receiver
        } else {
            ExceptionCopy::CloneWithMessage
        }),
{
    if argc == 0 {
        return ExceptionCopy::Receiver;
    }
    if same_object {
        return ExceptionCopy::Receiver;
    }
    ExceptionCopy::CloneWithMessage
}

/// What storing a value as the pending exception does.
#[derive(Clone, Copy, Debug, PartialEq, Eq, Structural)]
pub struct ExcSetPlan {
    /// No exception is pending any more (the value was `nil`).
    pub clear: bool,
    /// The exception is taken off the top of the GC arena.
    pub pop_arena: bool,
    /// The debug position and the backtrace are recorded in the exception.
    pub keep_backtrace: bool,
}

/// Decides what storing a value as the pending exception does: `is_nil`
/// tells whether it is `nil`; `arena_idx` is the GC arena's height and
/// `arena_top_is_exc` whether its top entry is the exception;
/// `out_of_memory` whether the VM ran out of memory and `has_backtrace`
/// whether the exception already carries its backtrace.
pub fn mrb_exc_set(
    is_nil: bool,
    arena_idx: i32,
    arena_top_is_exc: bool,
    out_of_memory: bool,
    has_backtrace: bool,
) -> (r: ExcSetPlan)
    ensures
        r.clear == is_nil,
        r.pop_arena == (!is_nil && arena_idx > 0 && arena_top_is_exc),
        r.keep_backtrace == (!is_nil && !out_of_memory && !has_backtrace),
{
    if is_nil {
        ExcSetPlan { clear: true, pop_arena: false, keep_backtrace: false }
    } else {
        ExcSetPlan {
            clear: false,
            pop_arena: arena_idx > 0 && arena_top_is_exc,
            keep_backtrace: !out_of_memory && !has_backtrace,
        }
    }
}

/// How raising a value ends.
#[derive(Clone, Copy, Debug, PartialEq, Eq, Structural)]
pub enum RaiseOutcome {
    /// The value is no exception: `TypeError` "exception object expected"
    /// is raised in its place.
    NotAnException,
    /// Control goes to the innermost handler.
    Unwind,
    /// No handler is installed: the exception is printed and the process
    /// aborts.
    Abort,
}

/// Decides how raising a value ends, given whether it is an exception and
/// whether a handler is installed.
pub fn mrb_exc_raise(is_exception: bool, has_handler: bool) -> (r: RaiseOutcome)
    ensures
        !is_exception ==> r == RaiseOutcome::NotAnException,
        is_exception && has_handler ==> r == RaiseOutcome::Unwind,
        is_exception && !has_handler ==> r == RaiseOutcome::Abort,
{
    if !is_exception {
        RaiseOutcome::NotAnException
    } else if has_handler {
        RaiseOutcome::Unwind
    } else {
        RaiseOutcome::Abort
    }
}

} // verus!
