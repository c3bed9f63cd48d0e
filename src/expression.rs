//! Calculated-column expressions: a dotted chain of identifiers such as
//! `customer.state`.
use vstd::prelude::*;

verus! {

/// The dot-separated segments of `s`, read left to right. An empty text has
/// one empty segment.
pub open spec fn segments(s: Seq<char>) -> Seq<Seq<char>>
    decreases s.len(),
{
    if s.len() == 0 {
        seq![Seq::<char>::empty()]
    } else {
        let init = segments(s.drop_last());
        if s.last() == '.' {
            init.push(Seq::<char>::empty())
        } else {
            init.update(init.len() - 1, init.last().push(s.last()))
        }
    }
}

pub open spec fn string_views(v: Seq<String>) -> Seq<Seq<char>> {
    v.map_values(|x: String| x@)
}

/// Splits an expression at each `.`.
pub fn split_segments(s: &str) -> (r: Vec<String>)
    ensures
        string_views(r@) == segments(s@),
{
    let n = s.unicode_len();
    let mut done: Vec<String> = Vec::new();
    let mut start: usize = 0;
    let mut i: usize = 0;
    proof {
        assert(s@.subrange(0, 0) =~= Seq::<char>::empty());
        assert(string_views(done@).push(s@.subrange(0, 0)) =~= segments(s@.subrange(0, 0)));
    }
    while i < n
        invariant
            n == s@.len(),
            start <= i <= n,
            string_views(done@).push(s@.subrange(start as int, i as int)) == segments(
                s@.subrange(0, i as int),
            ),
        decreases n - i,
    {
        let c = s.get_char(i);
        proof {
            let p = s@.subrange(0, i as int + 1);
            assert(p.drop_last() =~= s@.subrange(0, i as int));
            assert(p.last() == c);
        }
        if c == '.' {
            let seg = s.substring_char(start, i).to_owned();
            done.push(seg);
            start = i + 1;
            proof {
                assert(s@.subrange(start as int, i as int + 1) =~= Seq::<char>::empty());
                assert(string_views(done@).push(s@.subrange(start as int, i as int + 1)) =~= segments(
                    s@.subrange(0, i as int + 1),
                ));
            }
        } else {
            proof {
                let old_views = string_views(done@).push(s@.subrange(start as int, i as int));
                assert(s@.subrange(start as int, i as int + 1) =~= s@.subrange(start as int, i as int).push(c));
                assert(string_views(done@).push(s@.subrange(start as int, i as int + 1)) =~= old_views.update(
                    old_views.len() - 1,
                    old_views.last().push(c),
                ));
            }
        }
        i = i + 1;
    }
    let last = s.substring_char(start, n).to_owned();
    done.push(last);
    proof {
        assert(s@.subrange(0, n as int) =~= s@);
        assert(string_views(done@) =~= segments(s@));
    }
    done
}

} // verus!
