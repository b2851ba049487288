//! Association lists of string pairs: first-match lookup and key listing.

use vstd::prelude::*;
use crate::strutil::{str_eq, strs_view};

verus! {

/// The pairs, each as character sequences.
pub open spec fn pairs_view(pairs: Seq<(String, String)>) -> Seq<(Seq<char>, Seq<char>)> {
    pairs.map_values(|p: (String, String)| (p.0@, p.1@))
}

/// The keys of the pairs, in order.
pub open spec fn keys_of(pairs: Seq<(Seq<char>, Seq<char>)>) -> Seq<Seq<char>> {
    pairs.map_values(|p: (Seq<char>, Seq<char>)| p.0)
}

/// The value of the first pair whose key matches, if any.
pub open spec fn lookup(pairs: Seq<(Seq<char>, Seq<char>)>, key: Seq<char>) -> Option<Seq<char>>
    decreases pairs.len(),
{
    if pairs.len() == 0 {
        Option::None
    } else if pairs[0].0 == key {
        Option::Some(pairs[0].1)
    } else {
        lookup(pairs.drop_first(), key)
    }
}

/// Find the value of the first pair whose key matches, as `lookup` states
/// it.
pub fn find(pairs: &Vec<(String, String)>, key: &str) -> (r: Option<String>)
    ensures
        match r {
            Option::Some(v) => lookup(pairs_view(pairs@), key@) == Option::Some(v@),
            Option::None => lookup(pairs_view(pairs@), key@) is None,
        },
{
    let ghost full = pairs_view(pairs@);
    proof {
        assert(full.skip(0) =~= full);
    }
    let mut i: usize = 0;
    while i < pairs.len()
        invariant
            i <= pairs@.len(),
            full == pairs_view(pairs@),
            full.len() == pairs@.len(),
            lookup(full, key@) == lookup(full.skip(i as int), key@),
        decreases pairs@.len() - i,
    {
        proof {
            assert(full.skip(i as int).len() > 0);
            assert(full.skip(i as int)[0] == full[i as int]);
            assert(full.skip(i as int).drop_first() =~= full.skip(i + 1 as int));
        }
        if str_eq(pairs[i].0.as_str(), key) {
            return Option::Some(pairs[i].1.clone());
        }
        i += 1;
    }
    proof {
        assert(full.skip(full.len() as int) =~= Seq::<(Seq<char>, Seq<char>)>::empty());
    }
    Option::None
}

/// The keys of the pairs, in order, as owned strings.
pub fn keys(pairs: &Vec<(String, String)>) -> (r: Vec<String>)
    ensures
        strs_view(r@) == keys_of(pairs_view(pairs@)),
{
    let mut out: Vec<String> = Vec::new();
    let mut j: usize = 0;
    while j < pairs.len()
        invariant
            j <= pairs@.len(),
            strs_view(out@) =~= keys_of(pairs_view(pairs@)).take(j as int),
        decreases pairs@.len() - j,
    {
        let ghost prev = out@;
        out.push(pairs[j].0.clone());
        proof {
            let ks = keys_of(pairs_view(pairs@));
            assert(pairs_view(pairs@).len() == pairs@.len());
            assert(ks.len() == pairs@.len());
            assert(strs_view(prev).len() == prev.len());
            assert(prev.len() == j);
            assert(out@ == prev.push(pairs@[j as int].0));
            assert(ks[j as int] == pairs@[j as int].0@);
            assert forall|k: int| 0 <= k <= j implies strs_view(out@)[k] == ks.take(
                j + 1 as int,
            )[k] by {
                assert(strs_view(out@)[k] == out@[k]@);
                if k < j {
                    assert(out@[k] == prev[k]);
                    assert(strs_view(prev)[k] == prev[k]@);
                    assert(strs_view(prev)[k] == ks.take(j as int)[k]);
                } else {
                    assert(out@[k] == pairs@[j as int].0);
                }
            }
            assert(strs_view(out@) =~= ks.take(j + 1 as int));
        }
        j += 1;
    }
    proof {
        assert(keys_of(pairs_view(pairs@)).take(pairs@.len() as int) =~= keys_of(
            pairs_view(pairs@),
        ));
    }
    out
}

} // verus!
