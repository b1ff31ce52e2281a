//! The configured backends: their names and where each is reached.

use vstd::prelude::*;
use vstd::string::*;
use crate::pages::{split_on, find};

verus! {

/// The texts of `names`.
pub open spec fn texts(names: Seq<String>) -> Seq<Seq<char>> {
    names.map_values(|n: String| n@)
}

/// Where the backend called `name` is reached under `base`.
pub open spec fn address_of(base: Seq<char>, name: Seq<char>) -> Seq<char> {
    base + "/printers/"@ + name
}

pub fn backend_address(base: &str, name: &str) -> (address: String)
    ensures
        address@ == address_of(base@, name@),
{
    let mut address = base.to_owned();
    address.append("/printers/");
    address.append(name);
    address
}

/// The names in a list that separates them by single spaces.
pub fn backend_names(list: &str) -> (names: Vec<String>)
    ensures
        texts(names@) == split_on(list@, ' '),
{
    let n: usize = list.unicode_len();
    let ghost s = list@;
    let mut names: Vec<String> = Vec::new();
    let mut from: usize = 0;
    let mut done: bool = false;
    proof {
        assert(s.skip(0) =~= s);
        assert(texts(names@) + split_on(s, ' ') =~= split_on(s, ' '));
    }
    while !done
        invariant
            s == list@,
            n == s.len(),
            from <= n,
            !done ==> split_on(s, ' ') == texts(names@) + split_on(s.skip(from as int), ' '),
            done ==> split_on(s, ' ') == texts(names@),
        decreases n - from + (if done { 0int } else { 1int }),
    {
        let k: usize = find(list, from, n, ' ');
        let piece = list.substring_char(from, k);
        let ghost rest = s.skip(from as int);
        let ghost before = names@;
        names.push(piece.to_owned());
        proof {
            assert(rest =~= s.subrange(from as int, n as int));
            assert(rest.take(k - from) =~= piece@);
            assert(texts(names@) =~= texts(before).push(piece@));
            if k < n {
                assert(rest.skip(k - from + 1) =~= s.skip(k + 1));
                assert(texts(before) + (seq![piece@] + split_on(s.skip(k + 1), ' ')) =~= texts(
                    names@,
                ) + split_on(s.skip(k + 1), ' '));
            } else {
                assert(piece@ =~= rest);
                assert(texts(before) + seq![rest] =~= texts(names@));
            }
        }
        if k == n {
            done = true;
        } else {
            from = k + 1;
        }
    }
    names
}

} // verus!
