//! Dot-delimited key paths.

use vstd::prelude::*;

verus! {

/// The pieces of `s` between its dots, in order; empty pieces are kept, so a
/// text without dots is one piece and the empty text is one empty piece.
pub open spec fn split_dots(s: Seq<char>) -> Seq<Seq<char>>
    decreases s.len(),
{
    if s.len() == 0 {
        seq![Seq::empty()]
    } else {
        let p = split_dots(s.drop_last());
        if s.last() == '.' {
            p.push(Seq::empty())
        } else {
            p.update(p.len() - 1, p.last().push(s.last()))
        }
    }
}

/// A path has at least one piece.
pub proof fn lemma_split_nonempty(s: Seq<char>)
    ensures
        split_dots(s).len() >= 1,
    decreases s.len(),
{
    if s.len() > 0 {
        lemma_split_nonempty(s.drop_last());
    }
}

/// A text without dots is a path of one piece.
pub proof fn lemma_split_single(s: Seq<char>)
    requires
        !s.contains('.'),
    ensures
        split_dots(s) == seq![s],
    decreases s.len(),
{
    if s.len() > 0 {
        let d = s.drop_last();
        assert(!d.contains('.')) by {
            assert forall|j: int| 0 <= j < d.len() implies d[j] != '.' by {
                assert(d[j] == s[j]);
            }
        }
        assert(s.last() != '.') by {
            assert(s[s.len() - 1] == s.last());
        }
        lemma_split_single(d);
        assert(d.push(s.last()) =~= s);
        assert(seq![d].update(0, d.push(s.last())) =~= seq![s]);
    } else {
        assert(s =~= Seq::<char>::empty());
    }
}

/// Relies on `str::split` with a `char` pattern: the pieces between the dots,
/// in order, empty ones included.
#[verifier::external_body]
pub(crate) fn split_path(key: &str) -> (r: Vec<String>)
    ensures
        r@.map_values(|p: String| p@) == split_dots(key@),
{
    key.split('.').map(String::from).collect()
}

} // verus!
