//! The arguments that a device is started with.

use crate::decimal::{chars_of, parse_i32, parsed_i32};
use vstd::prelude::*;

verus! {

/// What the command line says of a device.
#[derive(Debug, PartialEq, Eq)]
pub struct Arguments {
    /// The identifier of the device.
    pub id: i32,
    /// Whether the device is a source of the gradient.
    pub source: bool,
}

impl Default for Arguments {
    fn default() -> (arguments: Self)
        ensures
            arguments == (Arguments { id: 0, source: false }),
    {
        Arguments { id: 0, source: false }
    }
}

/// The flag that marks a device as a source.
pub open spec fn source_flag() -> Seq<char> {
    seq!['-', 't']
}

/// The flag that marks a device as no source.
pub open spec fn no_source_flag() -> Seq<char> {
    seq!['-', 'f']
}

/// Whether `arg` is one of the two flags or a 32-bit number.
pub open spec fn accepted(arg: Seq<char>) -> bool {
    arg == source_flag() || arg == no_source_flag() || parsed_i32(arg) is Some
}

/// What is known after one more argument: a flag sets `source`, a number
/// sets `id`.
pub open spec fn after_argument(so_far: Arguments, arg: Seq<char>) -> Arguments {
    if arg == source_flag() {
        Arguments { source: true, ..so_far }
    } else if arg == no_source_flag() {
        Arguments { source: false, ..so_far }
    } else {
        Arguments { id: parsed_i32(arg).unwrap(), ..so_far }
    }
}

/// What the first `len` arguments say; where two of them speak of the same
/// thing the later one counts.
pub open spec fn after_arguments(args: Seq<String>, len: int) -> Arguments
    decreases len,
{
    if len <= 0 {
        Arguments { id: 0, source: false }
    } else {
        after_argument(after_arguments(args, len - 1), args[len - 1]@)
    }
}

impl Arguments {
    /// Whether `parse` takes the argument `arg`.
    pub fn accepts(arg: &str) -> (ok: bool)
        ensures
            ok == accepted(arg@),
    {
        let chars = chars_of(arg);
        if chars.len() == 2 && chars[0] == '-' && (chars[1] == 't' || chars[1] == 'f') {
            assert(chars@ =~= source_flag() || chars@ =~= no_source_flag());
            true
        } else {
            parse_i32(arg).is_some()
        }
    }

    /// Reads the arguments from first to last, starting from device 0 that
    /// is no source.
    pub fn parse(args: &Vec<String>) -> (parsed: Result<Arguments, String>)
        requires
            forall|i: int| 0 <= i < args.len() ==> accepted(#[trigger] args[i]@),
        ensures
            parsed == Ok::<Arguments, String>(after_arguments(args@, args.len() as int)),
    {
        let mut r = Arguments::default();
        let mut i: usize = 0;
        while i < args.len()
            invariant
                i <= args.len(),
                forall|i: int| 0 <= i < args.len() ==> accepted(#[trigger] args[i]@),
                r == after_arguments(args@, i as int),
            decreases args.len() - i,
        {
            let arg = args[i].as_str();
            assert(accepted(args[i as int]@));
            let chars = chars_of(arg);
            if chars.len() == 2 && chars[0] == '-' && chars[1] == 't' {
                assert(chars@ =~= source_flag());
                r.source = true;
            } else if chars.len() == 2 && chars[0] == '-' && chars[1] == 'f' {
                assert(chars@ =~= no_source_flag());
                r.source = false;
            } else {
                match parse_i32(arg) {
                    Some(id) => {
                        r.id = id;
                    },
                    None => {
                        assert(false);
                    },
                }
            }
            i = i + 1;
        }
        Ok(r)
    }
}

} // verus!
