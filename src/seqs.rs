use vstd::prelude::*;

verus! {

pub proof fn lemma_skip_skip<A>(s: Seq<A>, a: int, b: int)
    requires
        0 <= a <= s.len(),
        0 <= b <= s.len() - a,
    ensures
        s.skip(a).skip(b) == s.skip(a + b),
{
    assert(s.skip(a).skip(b) =~= s.skip(a + b));
}

pub proof fn lemma_skip_drop_first<A>(s: Seq<A>, a: int)
    requires
        0 <= a < s.len(),
    ensures
        s.skip(a).drop_first() == s.skip(a + 1),
{
    assert(s.skip(a).drop_first() =~= s.skip(a + 1));
}

} // verus!
