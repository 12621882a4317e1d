//! Connection tokens handed out as a slab hands out its slots: a token given
//! back is handed out again before any other, the last given back first, and
//! when none is waiting the next unused token is taken, up to a fixed number.
use vstd::prelude::*;

verus! {

/// The first token handed out.
pub const FIRST_TOKEN: usize = 2;
/// How many tokens can be in use at once.
pub const CAPACITY: usize = 128;

/// The tokens given back, the last one last, and the next token never used.
#[verifier::ext_equal]
pub struct SlabView {
    pub free: Seq<usize>,
    pub fresh: usize,
}

/// The slab is consistent: the tokens given back are distinct and were used.
pub open spec fn slab_wf(v: SlabView) -> bool {
    &&& FIRST_TOKEN <= v.fresh <= FIRST_TOKEN + CAPACITY
    &&& v.free.no_duplicates()
    &&& forall|i: int| 0 <= i < v.free.len() ==> FIRST_TOKEN <= #[trigger] v.free[i] < v.fresh
}

/// Whether `t` is handed out.
pub open spec fn in_use(v: SlabView, t: usize) -> bool {
    FIRST_TOKEN <= t < v.fresh && !v.free.contains(t)
}

/// A slab that has handed out nothing.
pub open spec fn empty_slab() -> SlabView {
    SlabView { free: Seq::empty(), fresh: FIRST_TOKEN }
}

/// Taking a token: the last one given back, else the next unused one; `None`
/// when every token is in use.
pub open spec fn spec_take(v: SlabView) -> (SlabView, Option<usize>) {
    if v.free.len() > 0 {
        (SlabView { free: v.free.drop_last(), ..v }, Some(v.free.last()))
    } else if v.fresh < FIRST_TOKEN + CAPACITY {
        (SlabView { fresh: (v.fresh + 1) as usize, ..v }, Some(v.fresh))
    } else {
        (v, None)
    }
}

/// Giving back token `t`.
pub open spec fn spec_give_back(v: SlabView, t: usize) -> SlabView {
    SlabView { free: v.free.push(t), ..v }
}

/// A token taken was not in use and now is; the others are as they were.
pub proof fn lemma_take(v: SlabView)
    requires
        slab_wf(v),
    ensures
        slab_wf(spec_take(v).0),
        spec_take(v).1 matches Some(t) ==> !in_use(v, t) && in_use(spec_take(v).0, t) && forall|u: usize|
            u != t ==> #[trigger] in_use(spec_take(v).0, u) == in_use(v, u),
        spec_take(v).1 is None ==> spec_take(v).0 == v && forall|u: usize|
            FIRST_TOKEN <= u < FIRST_TOKEN + CAPACITY ==> #[trigger] in_use(v, u),
{
    let (v1, r) = spec_take(v);
    if v.free.len() > 0 {
        let t = v.free.last();
        assert(v.free[v.free.len() - 1] == t);
        assert forall|u: usize| u != t implies #[trigger] in_use(v1, u) == in_use(v, u) by {
            if v.free.contains(u) {
                let i = choose|i: int| 0 <= i < v.free.len() && v.free[i] == u;
                assert(i != v.free.len() - 1);
                assert(v1.free[i] == u);
            }
            if v1.free.contains(u) {
                let i = choose|i: int| 0 <= i < v1.free.len() && v1.free[i] == u;
                assert(v.free[i] == u);
            }
        }
        assert(!v1.free.contains(t)) by {
            if v1.free.contains(t) {
                let i = choose|i: int| 0 <= i < v1.free.len() && v1.free[i] == t;
                assert(v.free[i] == v.free[v.free.len() - 1]);
            }
        }
    } else if v.fresh < FIRST_TOKEN + CAPACITY {
        assert forall|u: usize| u != v.fresh implies #[trigger] in_use(v1, u) == in_use(v, u) by {}
        assert(!v.free.contains(v.fresh));
    } else {
        assert forall|u: usize| FIRST_TOKEN <= u < FIRST_TOKEN + CAPACITY implies #[trigger] in_use(v, u) by {
            assert(!v.free.contains(u));
        }
    }
}

/// A token given back is no longer in use; the others are as they were.
pub proof fn lemma_give_back(v: SlabView, t: usize)
    requires
        slab_wf(v),
        in_use(v, t),
    ensures
        slab_wf(spec_give_back(v, t)),
        !in_use(spec_give_back(v, t), t),
        forall|u: usize| u != t ==> #[trigger] in_use(spec_give_back(v, t), u) == in_use(v, u),
{
    let v1 = spec_give_back(v, t);
    assert(v1.free[v.free.len() as int] == t);
    assert forall|u: usize| u != t implies #[trigger] in_use(v1, u) == in_use(v, u) by {
        if v.free.contains(u) {
            let i = choose|i: int| 0 <= i < v.free.len() && v.free[i] == u;
            assert(v1.free[i] == u);
        }
        if v1.free.contains(u) {
            let i = choose|i: int| 0 <= i < v1.free.len() && v1.free[i] == u;
            assert(i < v.free.len());
            assert(v.free[i] == u);
        }
    }
}

/// The tokens of a slab.
pub struct TokenSlab {
    free: Vec<usize>,
    fresh: usize,
}

impl View for TokenSlab {
    type V = SlabView;

    closed spec fn view(&self) -> SlabView {
        SlabView { free: self.free@, fresh: self.fresh }
    }
}

impl TokenSlab {
    /// A slab that has handed out nothing.
    pub fn new() -> (r: TokenSlab)
        ensures
            r@ == empty_slab(),
            slab_wf(r@),
    {
        let r = TokenSlab { free: Vec::new(), fresh: FIRST_TOKEN };
        assert(r@ =~= empty_slab());
        r
    }

    /// Takes a token.
    pub fn take(&mut self) -> (r: Option<usize>)
        requires
            slab_wf(old(self)@),
        ensures
            slab_wf(final(self)@),
            (final(self)@, r) == spec_take(old(self)@),
    {
        proof {
            lemma_take(self@);
        }
        match self.free.pop() {
            Some(t) => Some(t),
            None => {
                if self.fresh < FIRST_TOKEN + CAPACITY {
                    let t = self.fresh;
                    self.fresh = self.fresh + 1;
                    Some(t)
                } else {
                    None
                }
            },
        }
    }

    /// Gives back token `t`, which is in use.
    pub fn give_back(&mut self, t: usize)
        requires
            slab_wf(old(self)@),
            in_use(old(self)@, t),
        ensures
            slab_wf(final(self)@),
            final(self)@ == spec_give_back(old(self)@, t),
    {
        proof {
            lemma_give_back(self@, t);
        }
        self.free.push(t);
    }
}

} // verus!
