//! Byte budget of the arguments that each batch may add to a command line.

use crate::parser::arg_views;
use vstd::prelude::*;

verus! {

/// Length of the command line made of `cmd` and `args`: the bytes of `cmd`
/// and, for each argument, its bytes and one separator.
pub open spec fn cmd_line_len(cmd: Seq<u8>, args: Seq<Seq<u8>>) -> nat
    decreases args.len(),
{
    if args.len() == 0 {
        cmd.len()
    } else {
        cmd_line_len(cmd, args.drop_last()) + args.last().len() + 1
    }
}

proof fn lemma_cmd_line_len_grows(cmd: Seq<u8>, args: Seq<Seq<u8>>, i: int)
    requires
        0 <= i <= args.len(),
    ensures
        cmd_line_len(cmd, args.subrange(0, i)) <= cmd_line_len(cmd, args),
    decreases args.len(),
{
    if i == args.len() {
        assert(args.subrange(0, i) =~= args);
    } else {
        lemma_cmd_line_len_grows(cmd, args.drop_last(), i);
        assert(args.drop_last().subrange(0, i) =~= args.subrange(0, i));
    }
}

/// Returns the length in bytes of the command line made of `cmd` and `args`
/// (see `cmd_line_len`), or `None` when it does not fit in a `usize`.
pub fn initial_cmd_line_len(cmd: &[u8], args: &[Vec<u8>]) -> (r: Option<usize>)
    ensures
        r is Some <==> cmd_line_len(cmd@, arg_views(args@)) <= usize::MAX,
        r is Some ==> r->0 == cmd_line_len(cmd@, arg_views(args@)),
{
    let ghost all = arg_views(args@);
    let mut acc: usize = cmd.len();
    let mut i: usize = 0;
    assert(all.subrange(0, 0) =~= Seq::<Seq<u8>>::empty());
    while i < args.len()
        invariant
            i <= args.len(),
            all == arg_views(args@),
            acc == cmd_line_len(cmd@, all.subrange(0, i as int)),
        decreases args.len() - i,
    {
        assert(all.subrange(0, i + 1).drop_last() =~= all.subrange(0, i as int));
        assert(all.subrange(0, i + 1).last() == args@[i as int]@);
        match acc.checked_add(args[i].len()) {
            Some(a) => match a.checked_add(1) {
                Some(b) => {
                    acc = b;
                },
                None => {
                    proof {
                        lemma_cmd_line_len_grows(cmd@, all, i + 1);
                    }
                    return None;
                },
            },
            None => {
                proof {
                    lemma_cmd_line_len_grows(cmd@, all, i + 1);
                }
                return None;
            },
        }
        i = i + 1;
    }
    assert(all.subrange(0, i as int) =~= all);
    Some(acc)
}

/// Returns how many bytes the arguments of a batch may take when the whole
/// command line, `cmd` and `args` included, is limited to `max_cmd_line_len`
/// bytes: the limit, less the initial command line and one separator. Returns
/// `None` when that leaves less than one byte.
pub fn remaining_args_budget(max_cmd_line_len: usize, cmd: &[u8], args: &[Vec<u8>]) -> (r: Option<
    usize,
>)
    ensures
        r is Some <==> cmd_line_len(cmd@, arg_views(args@)) + 2 <= max_cmd_line_len,
        r is Some ==> r->0 == max_cmd_line_len - cmd_line_len(cmd@, arg_views(args@)) - 1,
{
    match initial_cmd_line_len(cmd, args) {
        Some(init) => {
            if init < max_cmd_line_len && max_cmd_line_len - init >= 2 {
                Some(max_cmd_line_len - init - 1)
            } else {
                None
            }
        },
        None => None,
    }
}

} // verus!
