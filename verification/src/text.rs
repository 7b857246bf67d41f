//! Prefix extension of text buffers: what it means for one text to
//! extend another, and the little algebra of that relation.

use vstd::prelude::*;

verus! {

/// One text extends another: the old text is a prefix of the new.
pub open spec fn text_extends(a: Seq<char>, b: Seq<char>) -> bool {
    a.len() <= b.len() && a == b.subrange(0, a.len() as int)
}

pub broadcast proof fn lemma_extends_refl(a: Seq<char>)
    ensures
        #[trigger] text_extends(a, a),
{
    assert(a.subrange(0, a.len() as int) =~= a);
}

pub broadcast proof fn lemma_extends_append(a: Seq<char>, b: Seq<char>, t: Seq<char>)
    requires
        text_extends(a, b),
    ensures
        #[trigger] text_extends(a, b + t),
{
    assert((b + t).subrange(0, a.len() as int) =~= a);
}

/// Extension is transitive.
pub broadcast proof fn lemma_extends_trans_auto(a: Seq<char>, b: Seq<char>, c: Seq<char>)
    requires
        #[trigger] text_extends(a, b),
        #[trigger] text_extends(b, c),
    ensures
        text_extends(a, c),
{
    assert(c.subrange(0, a.len() as int) =~= a);
}

/// Extension is transitive.
pub proof fn lemma_extends_trans(a: Seq<char>, b: Seq<char>, c: Seq<char>)
    requires
        text_extends(a, b),
        text_extends(b, c),
    ensures
        text_extends(a, c),
{
    assert(c.subrange(0, a.len() as int) =~= a);
}

/// Appending extends.
pub proof fn lemma_extends_concat(a: Seq<char>, t: Seq<char>)
    ensures
        text_extends(a, a + t),
{
    assert((a + t).subrange(0, a.len() as int) =~= a);
}


} // verus!
