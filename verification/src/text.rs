use vstd::prelude::*;

verus! {

use vstd::string::StringExecFns;

/// The views of a vector of strings.
pub open spec fn views_of(parts: Seq<String>) -> Seq<Seq<char>> {
    parts.map_values(|p: String| p@)
}

/// `parts` run together with `sep` between consecutive entries.
pub open spec fn spec_join(parts: Seq<Seq<char>>, sep: Seq<char>) -> Seq<char>
    decreases parts.len(),
{
    if parts.len() == 0 {
        Seq::empty()
    } else if parts.len() == 1 {
        parts[0]
    } else {
        spec_join(parts.drop_last(), sep) + sep + parts.last()
    }
}

/// Joins strings with a separator.
pub fn join(parts: &Vec<String>, sep: &str) -> (r: String)
    ensures
        r@ == spec_join(views_of(parts@), sep@),
{
    let mut out = String::new();
    let n = parts.len();
    for i in 0..n
        invariant
            n == parts@.len(),
            out@ == spec_join(views_of(parts@.take(i as int)), sep@),
    {
        if i > 0 {
            out.append(sep);
        }
        out.append(parts[i].as_str());
        proof {
            let taken = views_of(parts@.take(i as int + 1));
            assert(taken.drop_last() =~= views_of(parts@.take(i as int)));
            assert(taken.last() == parts@[i as int]@);
            if i == 0 {
                assert(out@ =~= spec_join(taken, sep@));
            }
        }
    }
    proof {
        assert(parts@.take(n as int) =~= parts@);
    }
    out
}

/// Whether some string in `parts` reads `s`.
pub open spec fn contains_str(parts: Seq<String>, s: Seq<char>) -> bool {
    exists|i: int| 0 <= i < parts.len() && parts[i]@ == s
}

/// Looks for `s` among `parts`.
pub fn vec_contains_str(parts: &Vec<String>, s: &str) -> (r: bool)
    ensures
        r == contains_str(parts@, s@),
{
    let needle = s.to_owned();
    let n = parts.len();
    for i in 0..n
        invariant
            needle@ == s@,
            n == parts@.len(),
            forall|j: int| 0 <= j < i ==> parts@[j]@ != s@,
    {
        if parts[i] == needle {
            return true;
        }
    }
    false
}

} // verus!
