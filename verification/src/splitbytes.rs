//! Splitting a byte string at a separator, with an exact specification.

use vstd::prelude::*;

verus! {

/// What splitting at `sep` yields, defined from the front: an empty input
/// gives one empty part; a leading separator opens a fresh empty part;
/// any other leading byte joins the first part of the rest.
pub open spec fn split_spec(s: Seq<u8>, sep: u8) -> Seq<Seq<u8>>
    decreases s.len(),
{
    if s.len() == 0 {
        seq![Seq::<u8>::empty()]
    } else if s[0] == sep {
        seq![Seq::<u8>::empty()] + split_spec(s.drop_first(), sep)
    } else {
        let rest = split_spec(s.drop_first(), sep);
        seq![seq![s[0]] + rest[0]] + rest.drop_first()
    }
}

/// Splitting always yields at least one part.
pub proof fn lemma_split_len(s: Seq<u8>, sep: u8)
    ensures
        split_spec(s, sep).len() >= 1,
    decreases s.len(),
{
    if s.len() > 0 {
        lemma_split_len(s.drop_first(), sep);
    }
}

/// The views of a vector of byte vectors.
pub open spec fn views(parts: Seq<Vec<u8>>) -> Seq<Seq<u8>> {
    parts.map_values(|v: Vec<u8>| v@)
}

/// The parts still to come, with the bytes gathered so far prefixed onto
/// the first of them.
pub open spec fn stitched(done: Seq<Seq<u8>>, cur: Seq<u8>, rest: Seq<Seq<u8>>) -> Seq<Seq<u8>> {
    done + seq![cur + rest[0]] + rest.drop_first()
}

/// Splits a byte string at every occurrence of `sep`. A trailing
/// separator yields a trailing empty part, and an input without the
/// separator yields a single part.
pub fn split_bytes(s: &[u8], sep: u8) -> (parts: Vec<Vec<u8>>)
    ensures
        views(parts@) == split_spec(s@, sep),
        parts@.len() >= 1,
{
    let n = s.len();
    let mut parts: Vec<Vec<u8>> = Vec::new();
    let mut cur: Vec<u8> = Vec::new();
    let mut i: usize = 0;
    proof {
        lemma_split_len(s@, sep);
        assert(s@.subrange(0, n as int) =~= s@);
        assert(stitched(views(parts@), cur@, split_spec(s@, sep)) =~~= split_spec(s@, sep));
    }
    while i < n
        invariant
            i <= n,
            n == s@.len(),
            split_spec(s@.subrange(i as int, n as int), sep).len() >= 1,
            split_spec(s@, sep) == stitched(
                views(parts@),
                cur@,
                split_spec(s@.subrange(i as int, n as int), sep),
            ),
        decreases n - i,
    {
        proof {
            let suf = s@.subrange(i as int, n as int);
            assert(suf.len() > 0 && suf[0] == s@[i as int]);
            assert(suf.drop_first() =~= s@.subrange(i as int + 1, n as int));
            lemma_split_len(s@.subrange(i as int + 1, n as int), sep);
        }
        let ghost old_parts = parts@;
        let ghost old_cur = cur@;
        let ghost next = split_spec(s@.subrange(i as int + 1, n as int), sep);
        if s[i] == sep {
            parts.push(cur);
            cur = Vec::new();
            proof {
                assert(views(parts@) =~= views(old_parts).push(old_cur));
                assert(stitched(views(old_parts), old_cur, seq![Seq::<u8>::empty()] + next)
                    =~~= stitched(views(parts@), cur@, next));
            }
        } else {
            let b = s[i];
            cur.push(b);
            proof {
                assert(stitched(views(old_parts), old_cur, seq![seq![b] + next[0]]
                    + next.drop_first()) =~~= stitched(views(parts@), cur@, next));
            }
        }
        i = i + 1;
    }
    proof {
        assert(s@.subrange(n as int, n as int) =~= Seq::<u8>::empty());
        let ghost fin = split_spec(Seq::<u8>::empty(), sep);
        assert(stitched(views(parts@), cur@, fin) =~~= views(parts@).push(cur@));
    }
    let ghost old_parts = parts@;
    let ghost old_cur = cur@;
    parts.push(cur);
    proof {
        assert(views(parts@) =~= views(old_parts).push(old_cur));
    }
    parts
}

} // verus!
