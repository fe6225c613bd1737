//! Splits input bytes into whitespace-separated arguments and groups them
//! into batches whose accounted size stays within a byte budget.

use vstd::prelude::*;

verus! {

/// Whether `b` is an ASCII whitespace byte: space, tab, line feed, form feed
/// or carriage return.
pub open spec fn is_space(b: u8) -> bool {
    b == 0x20u8 || b == 0x09u8 || b == 0x0au8 || b == 0x0cu8 || b == 0x0du8
}

/// Sum of the lengths of `args`.
pub open spec fn total_len(args: Seq<Seq<u8>>) -> nat
    decreases args.len(),
{
    if args.len() == 0 {
        0
    } else {
        total_len(args.drop_last()) + args.last().len()
    }
}

/// Accounted size of a batch: the bytes of its arguments and one separator
/// byte between each two neighbours.
pub open spec fn accounted_len(args: Seq<Seq<u8>>) -> nat {
    if args.len() == 0 {
        0
    } else {
        (total_len(args) + args.len() - 1) as nat
    }
}

/// Whether appending `arg` to the batch `args` would make it exceed `max_len`.
pub open spec fn overflows(max_len: nat, args: Seq<Seq<u8>>, arg: Seq<u8>) -> bool {
    accounted_len(args) + (if args.len() > 0 { 1nat } else { 0nat }) + arg.len() > max_len
}

/// Whether a token boundary hands out the batch `args` before taking `arg`.
pub open spec fn flushes(max_len: nat, args: Seq<Seq<u8>>, arg: Seq<u8>) -> bool {
    args.len() > 0 && overflows(max_len, args, arg)
}

/// Batches handed out at a token boundary.
pub open spec fn boundary_out(max_len: nat, args: Seq<Seq<u8>>, arg: Seq<u8>) -> Seq<
    Seq<Seq<u8>>,
> {
    if flushes(max_len, args, arg) {
        seq![args]
    } else {
        seq![]
    }
}

/// The batch being accumulated after a token boundary.
pub open spec fn boundary_args(max_len: nat, args: Seq<Seq<u8>>, arg: Seq<u8>) -> Seq<Seq<u8>> {
    let base = if flushes(max_len, args, arg) {
        Seq::empty()
    } else {
        args
    };
    if arg.len() > 0 {
        base.push(arg)
    } else {
        base
    }
}

/// Batches handed out at the end of the stream.
pub open spec fn eof_out(max_len: nat, args: Seq<Seq<u8>>, arg: Seq<u8>) -> Seq<Seq<Seq<u8>>> {
    let rest = boundary_args(max_len, args, arg);
    boundary_out(max_len, args, arg) + if rest.len() > 0 {
        seq![rest]
    } else {
        seq![]
    }
}

/// The batches handed out, the batch being accumulated and the token being
/// read, after `input` has been fed byte by byte.
pub open spec fn feed(max_len: nat, input: Seq<u8>) -> (Seq<Seq<Seq<u8>>>, Seq<Seq<u8>>, Seq<u8>)
    decreases input.len(),
{
    if input.len() == 0 {
        (seq![], seq![], seq![])
    } else {
        let (out, args, arg) = feed(max_len, input.drop_last());
        let b = input.last();
        if is_space(b) {
            (
                out + boundary_out(max_len, args, arg),
                boundary_args(max_len, args, arg),
                seq![],
            )
        } else {
            (out, args, arg.push(b))
        }
    }
}

/// Every batch handed out for `input`, the end of the stream included.
pub open spec fn batches_of(max_len: nat, input: Seq<u8>) -> Seq<Seq<Seq<u8>>> {
    let (out, args, arg) = feed(max_len, input);
    out + eof_out(max_len, args, arg)
}

/// The tokens completed in `input`, and the token still open at its end.
pub open spec fn split_tokens(input: Seq<u8>) -> (Seq<Seq<u8>>, Seq<u8>)
    decreases input.len(),
{
    if input.len() == 0 {
        (seq![], seq![])
    } else {
        let (toks, cur) = split_tokens(input.drop_last());
        let b = input.last();
        if is_space(b) {
            (
                if cur.len() > 0 {
                    toks.push(cur)
                } else {
                    toks
                },
                seq![],
            )
        } else {
            (toks, cur.push(b))
        }
    }
}

/// The maximal runs of non-whitespace bytes of `input`, in order.
pub open spec fn tokens_of(input: Seq<u8>) -> Seq<Seq<u8>> {
    let (toks, cur) = split_tokens(input);
    if cur.len() > 0 {
        toks.push(cur)
    } else {
        toks
    }
}

/// All arguments of `batches`, in order.
pub open spec fn concat(batches: Seq<Seq<Seq<u8>>>) -> Seq<Seq<u8>>
    decreases batches.len(),
{
    if batches.len() == 0 {
        seq![]
    } else {
        concat(batches.drop_last()) + batches.last()
    }
}

/// Whether `batch` is fit to be handed out under the budget `max_len`: it is
/// not empty, none of its arguments is, and it fits the budget unless it is
/// a single argument.
pub open spec fn valid_batch(max_len: nat, batch: Seq<Seq<u8>>) -> bool {
    &&& batch.len() > 0
    &&& forall|i: int| 0 <= i < batch.len() ==> #[trigger] batch[i].len() > 0
    &&& accounted_len(batch) <= max_len || batch.len() == 1
}

/// The byte strings held by `v`.
pub open spec fn arg_views(v: Seq<Vec<u8>>) -> Seq<Seq<u8>> {
    v.map_values(|a: Vec<u8>| a@)
}

/// The batches held by `v`.
pub open spec fn batch_views(v: Seq<Vec<Vec<u8>>>) -> Seq<Seq<Seq<u8>>> {
    v.map_values(|b: Vec<Vec<u8>>| arg_views(b@))
}

/// Viewing byte strings commutes with appending one.
pub proof fn lemma_arg_views_push(v: Seq<Vec<u8>>, x: Vec<u8>)
    ensures
        arg_views(v.push(x)) == arg_views(v).push(x@),
{
    assert(arg_views(v.push(x)) =~= arg_views(v).push(x@));
}

proof fn lemma_total_len_push(args: Seq<Seq<u8>>, x: Seq<u8>)
    ensures
        total_len(args.push(x)) == total_len(args) + x.len(),
        accounted_len(args.push(x)) == accounted_len(args) + (if args.len() > 0 {
            1nat
        } else {
            0nat
        }) + x.len(),
{
    assert(args.push(x).drop_last() =~= args);
}

proof fn lemma_concat_append(a: Seq<Seq<Seq<u8>>>, b: Seq<Seq<Seq<u8>>>)
    ensures
        concat(a + b) == concat(a) + concat(b),
    decreases b.len(),
{
    if b.len() == 0 {
        assert(a + b =~= a);
        assert(concat(a) + concat(b) =~= concat(a));
    } else {
        assert((a + b).drop_last() =~= a + b.drop_last());
        lemma_concat_append(a, b.drop_last());
        assert(concat(a) + concat(b) =~= concat(a) + concat(b.drop_last()) + b.last());
    }
}

proof fn lemma_concat_one(x: Seq<Seq<u8>>)
    ensures
        concat(seq![x]) == x,
{
    assert(seq![x].drop_last() =~= Seq::<Seq<Seq<u8>>>::empty());
    assert(concat(Seq::<Seq<Seq<u8>>>::empty()) == Seq::<Seq<u8>>::empty());
    assert(seq![x].last() == x);
    assert(Seq::<Seq<u8>>::empty() + x =~= x);
}

/// A token boundary keeps the arguments in order and keeps every batch fit.
proof fn lemma_boundary(max_len: nat, args: Seq<Seq<u8>>, arg: Seq<u8>)
    requires
        args.len() == 0 || valid_batch(max_len, args),
    ensures
        concat(boundary_out(max_len, args, arg)) + boundary_args(max_len, args, arg) == (if arg.len()
            > 0 {
            args.push(arg)
        } else {
            args
        }),
        forall|i: int|
            0 <= i < boundary_out(max_len, args, arg).len() ==> valid_batch(
                max_len,
                #[trigger] boundary_out(max_len, args, arg)[i],
            ),
        boundary_args(max_len, args, arg).len() == 0 || valid_batch(
            max_len,
            boundary_args(max_len, args, arg),
        ),
{
    let out = boundary_out(max_len, args, arg);
    let rest = boundary_args(max_len, args, arg);
    if flushes(max_len, args, arg) {
        lemma_concat_one(args);
        if arg.len() > 0 {
            assert(args + seq![arg] =~= args.push(arg));
            assert(Seq::<Seq<u8>>::empty().push(arg) =~= seq![arg]);
        } else {
            assert(args + Seq::<Seq<u8>>::empty() =~= args);
        }
    } else {
        assert(concat(out) =~= Seq::<Seq<u8>>::empty()) by {
            assert(out =~= Seq::<Seq<Seq<u8>>>::empty());
        }
        assert(concat(out) + rest =~= rest);
        if arg.len() > 0 {
            lemma_total_len_push(args, arg);
            assert(rest == args.push(arg));
            assert forall|i: int| 0 <= i < rest.len() implies #[trigger] rest[i].len() > 0 by {
                if i < args.len() {
                    assert(rest[i] == args[i]);
                }
            }
        }
    }
}

/// What `feed` reaches: the tokens so far, split between the batches handed
/// out, the batch being accumulated and the token being read.
proof fn lemma_feed(max_len: nat, input: Seq<u8>)
    ensures
        ({
            let (out, args, arg) = feed(max_len, input);
            let (toks, cur) = split_tokens(input);
            &&& concat(out) + args == toks
            &&& arg == cur
            &&& forall|i: int| 0 <= i < out.len() ==> valid_batch(max_len, #[trigger] out[i])
            &&& args.len() == 0 || valid_batch(max_len, args)
        }),
    decreases input.len(),
{
    if input.len() == 0 {
        assert(concat(Seq::<Seq<Seq<u8>>>::empty()) + Seq::<Seq<u8>>::empty() =~= Seq::<
            Seq<u8>,
        >::empty());
    } else {
        lemma_feed(max_len, input.drop_last());
        let (out, args, arg) = feed(max_len, input.drop_last());
        let b = input.last();
        if is_space(b) {
            lemma_boundary(max_len, args, arg);
            let bo = boundary_out(max_len, args, arg);
            lemma_concat_append(out, bo);
            assert(concat(out + bo) + boundary_args(max_len, args, arg) =~= concat(out) + (concat(
                bo,
            ) + boundary_args(max_len, args, arg)));
            if arg.len() > 0 {
                assert(concat(out) + args.push(arg) =~= (concat(out) + args).push(arg));
            }
            assert forall|i: int| 0 <= i < (out + bo).len() implies valid_batch(
                max_len,
                #[trigger] (out + bo)[i],
            ) by {
                if i < out.len() {
                    assert((out + bo)[i] == out[i]);
                } else {
                    assert((out + bo)[i] == bo[i - out.len()]);
                }
            }
        }
    }
}

/// Every argument read from the stream goes out in exactly one batch, in the
/// order of the stream: the arguments of all batches, one after another, are
/// the maximal runs of non-whitespace bytes of the input.
pub proof fn lemma_batches_keep_tokens(max_len: nat, input: Seq<u8>)
    ensures
        concat(batches_of(max_len, input)) == tokens_of(input),
{
    lemma_feed(max_len, input);
    let (out, args, arg) = feed(max_len, input);
    lemma_boundary(max_len, args, arg);
    let bo = boundary_out(max_len, args, arg);
    let rest = boundary_args(max_len, args, arg);
    let tail = if rest.len() > 0 {
        seq![rest]
    } else {
        seq![]
    };
    lemma_concat_append(out, bo + tail);
    lemma_concat_append(bo, tail);
    if rest.len() > 0 {
        lemma_concat_one(rest);
    } else {
        assert(concat(tail) =~= Seq::<Seq<u8>>::empty());
        assert(concat(bo) + concat(tail) =~= concat(bo) + rest);
    }
    assert(concat(out) + (concat(bo) + rest) =~= concat(out) + concat(bo) + rest);
    if arg.len() > 0 {
        assert(concat(out) + args.push(arg) =~= (concat(out) + args).push(arg));
    }
}

/// Every batch handed out is non-empty, holds no empty argument, and its
/// accounted size (argument bytes plus one separator between neighbours)
/// stays within `max_len` unless the batch is one argument alone.
pub proof fn lemma_batches_within_budget(max_len: nat, input: Seq<u8>)
    ensures
        forall|i: int|
            0 <= i < batches_of(max_len, input).len() ==> {
                let b = #[trigger] batches_of(max_len, input)[i];
                &&& valid_batch(max_len, b)
                &&& accounted_len(b) == total_len(b) + b.len() - 1
            },
{
    lemma_feed(max_len, input);
    let (out, args, arg) = feed(max_len, input);
    lemma_boundary(max_len, args, arg);
    let bo = boundary_out(max_len, args, arg);
    let rest = boundary_args(max_len, args, arg);
    let tail = if rest.len() > 0 {
        seq![rest]
    } else {
        seq![]
    };
    let all = out + (bo + tail);
    assert(batches_of(max_len, input) == all);
    assert forall|i: int| 0 <= i < all.len() implies valid_batch(max_len, #[trigger] all[i]) by {
        if i < out.len() {
            assert(all[i] == out[i]);
        } else if i < out.len() + bo.len() {
            assert(all[i] == bo[i - out.len()]);
        } else {
            assert(all[i] == rest);
        }
    }
}

/// Once the end of the stream has emptied the batcher, a further end of
/// stream hands out nothing.
pub proof fn lemma_eof_idempotent(max_len: nat)
    ensures
        eof_out(max_len, seq![], seq![]) == Seq::<Seq<Seq<u8>>>::empty(),
{
    assert(eof_out(max_len, seq![], seq![]) =~= Seq::<Seq<Seq<u8>>>::empty());
}

/// Breaks input bytes into whitespace-separated arguments and accumulates
/// them into a batch until appending the next one would exceed the budget.
pub struct Parser {
    /// Arguments accumulated so far.
    args: Vec<Vec<u8>>,
    /// Accounted size of `args`, separators included.
    cur_len: usize,
    /// Largest accounted size of a batch.
    max_len: usize,
    /// Argument being read.
    arg: Vec<u8>,
}

impl Parser {
    /// The batch being accumulated.
    pub closed spec fn batch(&self) -> Seq<Seq<u8>> {
        arg_views(self.args@)
    }

    /// The argument being read.
    pub closed spec fn token(&self) -> Seq<u8> {
        self.arg@
    }

    /// The budget of a batch.
    pub closed spec fn max_len(&self) -> nat {
        self.max_len as nat
    }

    /// The running size matches the batch, and the batch is fit.
    pub closed spec fn wf(&self) -> bool {
        &&& self.cur_len == accounted_len(self.batch())
        &&& self.max_len >= 1
        &&& self.batch().len() == 0 || valid_batch(self.max_len as nat, self.batch())
    }

    /// Creates a parser whose batches are at most `max_len` bytes, separators
    /// included.
    pub fn new(max_len: usize) -> (p: Self)
        requires
            max_len >= 1,
        ensures
            p.wf(),
            p.max_len() == max_len,
            p.batch() == Seq::<Seq<u8>>::empty(),
            p.token() == Seq::<u8>::empty(),
    {
        let p = Parser { args: Vec::new(), cur_len: 0, max_len, arg: Vec::new() };
        assert(p.batch() =~= Seq::<Seq<u8>>::empty());
        p
    }

    /// Reads one byte. Returns the batches that it completes: none, or the
    /// accumulated batch when the argument just ended does not fit in it.
    pub fn handle_byte(&mut self, ch: u8) -> (r: Vec<Vec<Vec<u8>>>)
        requires
            old(self).wf(),
        ensures
            final(self).wf(),
            final(self).max_len() == old(self).max_len(),
            is_space(ch) ==> {
                &&& batch_views(r@) == boundary_out(
                    old(self).max_len(),
                    old(self).batch(),
                    old(self).token(),
                )
                &&& final(self).batch() == boundary_args(
                    old(self).max_len(),
                    old(self).batch(),
                    old(self).token(),
                )
                &&& final(self).token() == Seq::<u8>::empty()
            },
            !is_space(ch) ==> {
                &&& r@.len() == 0
                &&& final(self).batch() == old(self).batch()
                &&& final(self).token() == old(self).token().push(ch)
            },
    {
        if is_separator(ch) {
            self.handle_space()
        } else {
            self.arg.push(ch);
            Vec::new()
        }
    }

    /// Ends the stream: closes the argument being read and returns every batch
    /// still held, after which the parser is empty.
    pub fn handle_eof(&mut self) -> (r: Vec<Vec<Vec<u8>>>)
        requires
            old(self).wf(),
        ensures
            final(self).wf(),
            final(self).max_len() == old(self).max_len(),
            batch_views(r@) == eof_out(old(self).max_len(), old(self).batch(), old(self).token()),
            final(self).batch() == Seq::<Seq<u8>>::empty(),
            final(self).token() == Seq::<u8>::empty(),
    {
        let mut out = self.handle_space();
        if self.args.len() > 0 {
            let ghost before = batch_views(out@);
            let ghost rest = self.batch();
            let mut batch: Vec<Vec<u8>> = Vec::new();
            core::mem::swap(&mut self.args, &mut batch);
            self.cur_len = 0;
            out.push(batch);
            assert(batch_views(out@) =~= before + seq![rest]);
        }
        assert(self.batch() =~= Seq::<Seq<u8>>::empty());
        out
    }

    /// Closes the argument being read at a token boundary, handing out the
    /// accumulated batch first when the argument does not fit in it.
    fn handle_space(&mut self) -> (r: Vec<Vec<Vec<u8>>>)
        requires
            old(self).wf(),
        ensures
            final(self).wf(),
            final(self).max_len() == old(self).max_len(),
            batch_views(r@) == boundary_out(
                old(self).max_len(),
                old(self).batch(),
                old(self).token(),
            ),
            final(self).batch() == boundary_args(
                old(self).max_len(),
                old(self).batch(),
                old(self).token(),
            ),
            final(self).token() == Seq::<u8>::empty(),
    {
        let ghost args0 = self.batch();
        let ghost arg0 = self.token();
        proof {
            lemma_boundary(self.max_len as nat, args0, arg0);
        }
        let mut out: Vec<Vec<Vec<u8>>> = Vec::new();
        if self.args.len() > 0 && self.is_break_down_needed() {
            let mut batch: Vec<Vec<u8>> = Vec::new();
            core::mem::swap(&mut self.args, &mut batch);
            self.cur_len = 0;
            out.push(batch);
            assert(batch_views(out@) =~= seq![args0]);
            assert(self.batch() =~= Seq::<Seq<u8>>::empty());
        } else {
            assert(batch_views(out@) =~= Seq::<Seq<Seq<u8>>>::empty());
        }
        if self.arg.len() > 0 {
            self.append_arg();
        } else {
            assert(self.arg@ =~= Seq::<u8>::empty());
        }
        out
    }

    /// Whether appending the argument being read would exceed the budget.
    fn is_break_down_needed(&self) -> (r: bool)
        requires
            self.wf(),
        ensures
            r == overflows(self.max_len(), self.batch(), self.token()),
    {
        let separator_len: usize = if self.args.len() > 0 {
            1
        } else {
            0
        };
        if self.cur_len > self.max_len {
            true
        } else {
            let room = self.max_len - self.cur_len;
            if separator_len > room {
                true
            } else {
                self.arg.len() > room - separator_len
            }
        }
    }

    /// Moves the argument being read to the end of the batch.
    fn append_arg(&mut self)
        requires
            old(self).token().len() > 0,
            old(self).max_len >= 1,
            old(self).cur_len == accounted_len(old(self).batch()),
            old(self).batch().len() == 0 || !overflows(
                old(self).max_len(),
                old(self).batch(),
                old(self).token(),
            ),
        ensures
            final(self).max_len == old(self).max_len,
            final(self).cur_len == accounted_len(final(self).batch()),
            final(self).batch() == old(self).batch().push(old(self).token()),
            final(self).token() == Seq::<u8>::empty(),
    {
        let ghost args0 = self.batch();
        proof {
            lemma_total_len_push(args0, self.arg@);
        }
        let mut token: Vec<u8> = Vec::new();
        core::mem::swap(&mut self.arg, &mut token);
        if self.args.len() > 0 {
            self.cur_len = self.cur_len + 1 + token.len();
        } else {
            self.cur_len = token.len();
        }
        self.args.push(token);
        assert(self.batch() =~= args0.push(token@));
        assert(self.arg@ =~= Seq::<u8>::empty());
    }
}

/// Splits `input` into the batches that a parser with budget `max_len` hands
/// out, the end of the stream included.
pub fn split_into_batches(max_len: usize, input: &[u8]) -> (r: Vec<Vec<Vec<u8>>>)
    requires
        max_len >= 1,
    ensures
        batch_views(r@) == batches_of(max_len as nat, input@),
{
    let mut p = Parser::new(max_len);
    let mut out: Vec<Vec<Vec<u8>>> = Vec::new();
    let mut i: usize = 0;
    assert(input@.subrange(0, 0) =~= Seq::<u8>::empty());
    assert(batch_views(out@) =~= Seq::<Seq<Seq<u8>>>::empty());
    while i < input.len()
        invariant
            i <= input.len(),
            p.wf(),
            p.max_len() == max_len,
            feed(max_len as nat, input@.subrange(0, i as int)) == (
                batch_views(out@),
                p.batch(),
                p.token(),
            ),
        decreases input.len() - i,
    {
        let ghost prefix = input@.subrange(0, i as int);
        let ghost before = batch_views(out@);
        let mut done = p.handle_byte(input[i]);
        let ghost added = batch_views(done@);
        out.append(&mut done);
        assert(batch_views(out@) =~= before + added);
        i = i + 1;
        assert(input@.subrange(0, i as int).drop_last() =~= prefix);
    }
    assert(input@.subrange(0, input.len() as int) =~= input@);
    let ghost before = batch_views(out@);
    let mut last = p.handle_eof();
    let ghost added = batch_views(last@);
    out.append(&mut last);
    assert(batch_views(out@) =~= before + added);
    out
}

/// Returns whether `b` separates two arguments.
pub fn is_separator(b: u8) -> (r: bool)
    ensures
        r == is_space(b),
{
    b == 0x20u8 || b == 0x09u8 || b == 0x0au8 || b == 0x0cu8 || b == 0x0du8
}

} // verus!
