//! Ordered middleware chains: a value is threaded through a list of
//! registered middleware items, each receiving the previous one's output.

use vstd::prelude::*;

verus! {

/// The contract a registered middleware item must honor: `rel` describes the
/// valid input/output pairs of the transformation, and `call` produces an
/// output valid for its input.
pub trait Middleware<R> {
    /// The input/output pairs this middleware may produce.
    spec fn rel(&self, input: R, output: R) -> bool;

    /// Apply the middleware to the threaded value.
    fn call(&self, input: R) -> (res: R)
        ensures
            self.rel(input, res),
    ;
}

/// Holds when threading `input` through `fns` in order can produce `output`:
/// every consecutive pair of values is a valid input/output pair of the
/// corresponding middleware, and an empty list leaves the value unchanged.
pub open spec fn chain_rel<R>(fns: Seq<Box<dyn Middleware<R>>>, input: R, output: R) -> bool
    decreases fns.len(),
{
    if fns.len() == 0 {
        output == input
    } else {
        exists|mid: R| #[trigger] fns[0].rel(input, mid) && chain_rel(fns.drop_first(), mid, output)
    }
}

/// Extending a chainable prefix by the next middleware keeps it chainable:
/// the middleware at position `i` relates the prefix's output to the new one.
proof fn lemma_chain_rel_extend<R>(
    fns: Seq<Box<dyn Middleware<R>>>,
    i: int,
    input: R,
    mid: R,
    output: R,
)
    requires
        0 <= i < fns.len(),
        chain_rel(fns.subrange(0, i), input, mid),
        fns[i].rel(mid, output),
    ensures
        chain_rel(fns.subrange(0, i + 1), input, output),
    decreases i,
{
    let t = fns.subrange(0, i + 1);
    assert(t[0] == fns[0]);
    if i == 0 {
        assert(mid == input);
        assert(t.drop_first() =~= Seq::<Box<dyn Middleware<R>>>::empty());
        assert(t[0].rel(input, output) && chain_rel(t.drop_first(), output, output));
    } else {
        let s = fns.subrange(0, i);
        assert(s[0] == fns[0]);
        let m = choose|m: R| #[trigger] s[0].rel(input, m) && chain_rel(s.drop_first(), m, mid);
        let rest = fns.drop_first();
        assert(s.drop_first() =~= rest.subrange(0, i - 1));
        assert(rest[i - 1] == fns[i]);
        lemma_chain_rel_extend(rest, i - 1, m, mid, output);
        assert(rest.subrange(0, i) =~= t.drop_first());
        assert(t[0].rel(input, m) && chain_rel(t.drop_first(), m, output));
    }
}

/// A middleware chain that passes one value through its registered functions.
#[verifier::reject_recursive_types(R)]
pub struct Ware<R> {
    /// The registered middleware items, in registration order.
    pub fns: Vec<Box<dyn Middleware<R>>>,
}

impl<R> Ware<R> {
    /// Create a new middleware chain with no registered functions.
    pub fn new() -> (w: Ware<R>)
        ensures
            w.fns@.len() == 0,
    {
        let vec: Vec<Box<dyn Middleware<R>>> = Vec::new();
        Ware { fns: vec }
    }

    /// Append a middleware item to the end of the chain.
    pub fn wrap(&mut self, func: Box<dyn Middleware<R>>)
        ensures
            final(self).fns@ == old(self).fns@.push(func),
    {
        self.fns.push(func);
    }

    /// Thread `arg` through every registered middleware item, in
    /// registration order.
    pub fn run(&self, arg: R) -> (res: R)
        ensures
            chain_rel(self.fns@, arg, res),
    {
        let mut acc = arg;
        let ghost input = acc;
        let n = self.fns.len();
        let mut i: usize = 0;
        proof {
            assert(self.fns@.subrange(0, 0) =~= Seq::<Box<dyn Middleware<R>>>::empty());
        }
        while i < n
            invariant
                n == self.fns@.len(),
                0 <= i <= n,
                chain_rel(self.fns@.subrange(0, i as int), input, acc),
            decreases n - i,
        {
            let next = self.fns[i].call(acc);
            proof {
                lemma_chain_rel_extend(self.fns@, i as int, input, acc, next);
            }
            acc = next;
            i = i + 1;
        }
        proof {
            assert(self.fns@.subrange(0, n as int) =~= self.fns@);
        }
        acc
    }
}

/// Law: a chain with no registered middleware relates an input to an output
/// exactly when they are equal: running it is the identity.
pub proof fn lemma_chain_empty<R>(input: R, output: R)
    ensures
        chain_rel(Seq::<Box<dyn Middleware<R>>>::empty(), input, output) <==> output == input,
{
}

/// Law: a chain of exactly two middleware items composes them in
/// registration order: it relates `input` to `output` exactly when the first
/// item can carry `input` to some value that the second carries to `output`.
pub proof fn lemma_chain_composition<R>(
    fns: Seq<Box<dyn Middleware<R>>>,
    input: R,
    output: R,
)
    requires
        fns.len() == 2,
    ensures
        chain_rel(fns, input, output) <==> (exists|mid: R|
            #[trigger] fns[0].rel(input, mid) && fns[1].rel(mid, output)),
{
    let rest = fns.drop_first();
    assert(rest[0] == fns[1]);
    assert(rest.drop_first() =~= Seq::<Box<dyn Middleware<R>>>::empty());
    if chain_rel(fns, input, output) {
        let m = choose|m: R| #[trigger] fns[0].rel(input, m) && chain_rel(rest, m, output);
        let m2 = choose|m2: R| #[trigger] rest[0].rel(m, m2) && chain_rel(
            rest.drop_first(),
            m2,
            output,
        );
        assert(fns[0].rel(input, m) && fns[1].rel(m, output));
    }
    if exists|mid: R| #[trigger] fns[0].rel(input, mid) && fns[1].rel(mid, output) {
        let m = choose|m: R| #[trigger] fns[0].rel(input, m) && fns[1].rel(m, output);
        assert(chain_rel(rest.drop_first(), output, output));
        assert(rest[0].rel(m, output) && chain_rel(rest.drop_first(), output, output));
        assert(chain_rel(rest, m, output));
    }
}

/// The two-value counterpart of [`Middleware`]: a transformation of a pair
/// of threaded values, described by its `rel` specification.
pub trait Middleware2<R, S> {
    /// The input/output pairs this middleware may produce.
    spec fn rel(&self, input: (R, S), output: (R, S)) -> bool;

    /// Apply the middleware to the threaded pair.
    fn call(&self, input1: R, input2: S) -> (res: (R, S))
        ensures
            self.rel((input1, input2), res),
    ;
}

/// Holds when threading `input` through `fns` in order can produce `output`.
pub open spec fn chain2_rel<R, S>(
    fns: Seq<Box<dyn Middleware2<R, S>>>,
    input: (R, S),
    output: (R, S),
) -> bool
    decreases fns.len(),
{
    if fns.len() == 0 {
        output == input
    } else {
        exists|mid: (R, S)| #[trigger] fns[0].rel(input, mid) && chain2_rel(
            fns.drop_first(),
            mid,
            output,
        )
    }
}

proof fn lemma_chain2_rel_extend<R, S>(
    fns: Seq<Box<dyn Middleware2<R, S>>>,
    i: int,
    input: (R, S),
    mid: (R, S),
    output: (R, S),
)
    requires
        0 <= i < fns.len(),
        chain2_rel(fns.subrange(0, i), input, mid),
        fns[i].rel(mid, output),
    ensures
        chain2_rel(fns.subrange(0, i + 1), input, output),
    decreases i,
{
    let t = fns.subrange(0, i + 1);
    assert(t[0] == fns[0]);
    if i == 0 {
        assert(mid == input);
        assert(t.drop_first() =~= Seq::<Box<dyn Middleware2<R, S>>>::empty());
        assert(t[0].rel(input, output) && chain2_rel(t.drop_first(), output, output));
    } else {
        let s = fns.subrange(0, i);
        assert(s[0] == fns[0]);
        let m = choose|m: (R, S)| #[trigger] s[0].rel(input, m) && chain2_rel(
            s.drop_first(),
            m,
            mid,
        );
        let rest = fns.drop_first();
        assert(s.drop_first() =~= rest.subrange(0, i - 1));
        assert(rest[i - 1] == fns[i]);
        lemma_chain2_rel_extend(rest, i - 1, m, mid, output);
        assert(rest.subrange(0, i) =~= t.drop_first());
        assert(t[0].rel(input, m) && chain2_rel(t.drop_first(), m, output));
    }
}

/// A middleware chain that passes two values through its registered
/// functions at once.
#[verifier::reject_recursive_types(R)]
#[verifier::reject_recursive_types(S)]
pub struct Ware2<R, S> {
    /// The registered middleware items, in registration order.
    pub fns: Vec<Box<dyn Middleware2<R, S>>>,
}

impl<R, S> Ware2<R, S> {
    /// Create a new two-value middleware chain with no registered functions.
    pub fn new() -> (w: Ware2<R, S>)
        ensures
            w.fns@.len() == 0,
    {
        let vec: Vec<Box<dyn Middleware2<R, S>>> = Vec::new();
        Ware2 { fns: vec }
    }

    /// Append a middleware item to the end of the chain.
    pub fn wrap(&mut self, func: Box<dyn Middleware2<R, S>>)
        ensures
            final(self).fns@ == old(self).fns@.push(func),
    {
        self.fns.push(func);
    }

    /// Thread the pair `(arg1, arg2)` through every registered middleware
    /// item, in registration order.
    pub fn run(&self, arg1: R, arg2: S) -> (res: (R, S))
        ensures
            chain2_rel(self.fns@, (arg1, arg2), res),
    {
        let mut acc = (arg1, arg2);
        let ghost input = acc;
        let n = self.fns.len();
        let mut i: usize = 0;
        proof {
            assert(self.fns@.subrange(0, 0) =~= Seq::<Box<dyn Middleware2<R, S>>>::empty());
        }
        while i < n
            invariant
                n == self.fns@.len(),
                0 <= i <= n,
                chain2_rel(self.fns@.subrange(0, i as int), input, acc),
            decreases n - i,
        {
            let (a, b) = acc;
            let next = self.fns[i].call(a, b);
            proof {
                lemma_chain2_rel_extend(self.fns@, i as int, input, acc, next);
            }
            acc = next;
            i = i + 1;
        }
        proof {
            assert(self.fns@.subrange(0, n as int) =~= self.fns@);
        }
        acc
    }
}

} // verus!
