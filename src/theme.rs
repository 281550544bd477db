//! Icon-theme inheritance chains.
//!
//! A theme's `index.theme` file names its parents in an `Inherits=` line; the
//! chain of a data root starts at the theme `default` and visits the parents
//! breadth first, each theme once.

use vstd::prelude::*;

use crate::bytes::{
    byte_strings, bytes_eq, find_bytes, find_from, find_space, slice_to_vec,
    space_from, split_bytes, split_spec,
};

verus! {

/// `Inherits=`
pub open spec fn inherits_key() -> Seq<u8> {
    seq![73u8, 110u8, 104u8, 101u8, 114u8, 105u8, 116u8, 115u8, 61u8]
}

/// `default`
pub open spec fn default_theme() -> Seq<u8> {
    seq![100u8, 101u8, 102u8, 97u8, 117u8, 108u8, 116u8]
}

/// The parent themes that an `index.theme` file names: the value of its first
/// `Inherits=` up to the next whitespace, cut at each comma.
pub open spec fn parse_index_spec(content: Seq<u8>) -> Seq<Seq<u8>> {
    let k = find_from(content, inherits_key(), 0);
    if k < 0 {
        Seq::empty()
    } else {
        let start = k + inherits_key().len();
        split_spec(content.subrange(start, space_from(content, start)), 44)
    }
}

/// The `index.theme` contents of one theme directory.
pub struct ThemeIndex {
    pub name: Vec<u8>,
    pub content: Vec<u8>,
}

/// Parents of theme `name`: from the first index file with that name, none
/// where there is no such file.
pub open spec fn theme_parents(indexes: Seq<ThemeIndex>, name: Seq<u8>) -> Seq<Seq<u8>>
    decreases indexes.len(),
{
    if indexes.len() == 0 {
        Seq::empty()
    } else if indexes[0].name@ == name {
        parse_index_spec(indexes[0].content@)
    } else {
        theme_parents(indexes.drop_first(), name)
    }
}

/// Every parent name that any index file mentions.
pub open spec fn all_parents(indexes: Seq<ThemeIndex>) -> Seq<Seq<u8>>
    decreases indexes.len(),
{
    if indexes.len() == 0 {
        Seq::empty()
    } else {
        parse_index_spec(indexes[0].content@) + all_parents(indexes.drop_first())
    }
}

/// `all` extended by each of `parents` that it does not hold yet, in order.
pub open spec fn add_missing(all: Seq<Seq<u8>>, parents: Seq<Seq<u8>>) -> Seq<Seq<u8>>
    decreases parents.len(),
{
    if parents.len() == 0 {
        all
    } else {
        let a = add_missing(all, parents.drop_last());
        if a.contains(parents.last()) {
            a
        } else {
            a.push(parents.last())
        }
    }
}

/// Breadth-first walk from position `i` of `all`, for at most `steps` themes.
pub open spec fn chain_from(
    indexes: Seq<ThemeIndex>,
    all: Seq<Seq<u8>>,
    i: nat,
    steps: nat,
) -> Seq<Seq<u8>>
    decreases steps,
{
    if steps == 0 || i >= all.len() {
        all
    } else {
        chain_from(indexes, add_missing(all, theme_parents(indexes, all[i as int])), i + 1, (steps - 1) as nat)
    }
}

/// The inheritance chain: `default` and every theme reachable from it, breadth
/// first. A chain never holds more themes than the index files name, plus one,
/// so that many steps complete the walk.
pub open spec fn theme_chain(indexes: Seq<ThemeIndex>) -> Seq<Seq<u8>> {
    chain_from(indexes, seq![default_theme()], 0, all_parents(indexes).len() + 2)
}

proof fn lemma_space_from(s: Seq<u8>, i: int)
    requires
        0 <= i <= s.len(),
    ensures
        i <= space_from(s, i) <= s.len(),
    decreases s.len() - i,
{
    if i < s.len() && !crate::bytes::is_space(s[i]) {
        lemma_space_from(s, i + 1);
    }
}

/// Parent theme names from the contents of an `index.theme` file.
pub fn parse_index(content: &[u8]) -> (r: Vec<Vec<u8>>)
    ensures
        byte_strings(r@) == parse_index_spec(content@),
{
    let key: Vec<u8> = vec![73u8, 110u8, 104u8, 101u8, 114u8, 105u8, 116u8, 115u8, 61u8];
    assert(key@ == inherits_key());
    match find_bytes(content, key.as_slice(), 0) {
        None => {
            let r: Vec<Vec<u8>> = Vec::new();
            assert(byte_strings(r@) =~= Seq::<Seq<u8>>::empty());
            r
        },
        Some(k) => {
            proof {
                crate::bytes::lemma_find_from(content@, key@, 0);
            }
            let n: usize = content.len();
            assert(k + 9 <= n);
            let start = k + 9;
            let end = find_space(content, start);
            proof {
                lemma_space_from(content@, start as int);
            }
            let value = slice_to_vec(content, start, end);
            split_bytes(value.as_slice(), 44)
        },
    }
}

proof fn lemma_parents_named(indexes: Seq<ThemeIndex>, name: Seq<u8>, p: Seq<u8>)
    requires
        theme_parents(indexes, name).contains(p),
    ensures
        all_parents(indexes).contains(p),
    decreases indexes.len(),
{
    let head = parse_index_spec(indexes[0].content@);
    let rest = all_parents(indexes.drop_first());
    if indexes[0].name@ == name {
        let k = choose|k: int| 0 <= k < head.len() && head[k] == p;
        assert((head + rest)[k] == p);
    } else {
        lemma_parents_named(indexes.drop_first(), name, p);
        let k = choose|k: int| 0 <= k < rest.len() && rest[k] == p;
        assert((head + rest)[head.len() + k] == p);
    }
}

proof fn lemma_unique_within(s: Seq<Seq<u8>>, u: Seq<Seq<u8>>)
    requires
        s.no_duplicates(),
        forall|k: int| 0 <= k < s.len() ==> u.contains(#[trigger] s[k]),
    ensures
        s.len() <= u.len(),
{
    s.unique_seq_to_set();
    u.lemma_cardinality_of_set();
    assert(s.to_set().subset_of(u.to_set()));
    vstd::set_lib::lemma_len_subset(s.to_set(), u.to_set());
}

/// Parents of theme `name` among `indexes`.
fn parents_of(indexes: &Vec<ThemeIndex>, name: &[u8]) -> (r: Vec<Vec<u8>>)
    ensures
        byte_strings(r@) == theme_parents(indexes@, name@),
{
    let mut i: usize = 0;
    assert(indexes@.subrange(0, indexes@.len() as int) == indexes@);
    while i < indexes.len()
        invariant
            i <= indexes@.len(),
            theme_parents(indexes@, name@) == theme_parents(indexes@.subrange(i as int, indexes@.len() as int), name@),
        decreases indexes@.len() - i,
    {
        let ghost rest = indexes@.subrange(i as int, indexes@.len() as int);
        assert(rest.drop_first() == indexes@.subrange(i + 1, indexes@.len() as int));
        if bytes_eq(indexes[i].name.as_slice(), name) {
            return parse_index(indexes[i].content.as_slice());
        }
        i = i + 1;
    }
    let r: Vec<Vec<u8>> = Vec::new();
    assert(byte_strings(r@) =~= Seq::<Seq<u8>>::empty());
    r
}

/// Whether `list` holds `x`.
pub fn contains_bytes(list: &Vec<Vec<u8>>, x: &[u8]) -> (r: bool)
    ensures
        r == byte_strings(list@).contains(x@),
{
    let mut i: usize = 0;
    while i < list.len()
        invariant
            i <= list@.len(),
            forall|k: int| 0 <= k < i ==> list@[k]@ != x@,
        decreases list@.len() - i,
    {
        if bytes_eq(list[i].as_slice(), x) {
            assert(byte_strings(list@)[i as int] == x@);
            return true;
        }
        i = i + 1;
    }
    assert(forall|k: int| 0 <= k < list@.len() ==> byte_strings(list@)[k] != x@);
    false
}

/// The inheritance chain of the themes whose `index.theme` files are given,
/// starting from `default`.
pub fn themes_for_dir(indexes: &Vec<ThemeIndex>) -> (r: Vec<Vec<u8>>)
    ensures
        byte_strings(r@) == theme_chain(indexes@),
        r@.len() >= 1,
        r@[0]@ == default_theme(),
        byte_strings(r@).no_duplicates(),
{
    let ghost universe = seq![default_theme()] + all_parents(indexes@);
    let ghost bound: nat = all_parents(indexes@).len() + 2;
    assert(universe.len() == all_parents(indexes@).len() + 1);
    assert(forall|w: int| 0 <= w < all_parents(indexes@).len() ==> universe[w + 1] == all_parents(indexes@)[w]);
    let default_name: Vec<u8> = vec![100u8, 101u8, 102u8, 97u8, 117u8, 108u8, 116u8];
    let mut all: Vec<Vec<u8>> = Vec::new();
    all.push(default_name);
    assert(byte_strings(all@) =~= seq![default_theme()]);
    assert(universe[0] == default_theme());
    let mut index: usize = 0;
    while index < all.len()
        invariant
            universe.len() == all_parents(indexes@).len() + 1,
            bound == all_parents(indexes@).len() + 2,
            forall|w: int| 0 <= w < all_parents(indexes@).len() ==> universe[w + 1] == all_parents(indexes@)[w],
            index <= all@.len(),
            all@.len() >= 1,
            all@[0]@ == default_theme(),
            byte_strings(all@).no_duplicates(),
            forall|k: int| 0 <= k < all@.len() ==> universe.contains(#[trigger] all@[k]@),
            chain_from(indexes@, byte_strings(all@), index as nat, (bound - index) as nat)
                == theme_chain(indexes@),
        decreases bound - index,
    {
        proof {
            assert forall|k: int| 0 <= k < byte_strings(all@).len() implies universe.contains(
                #[trigger] byte_strings(all@)[k],
            ) by {
                assert(universe.contains(all@[k]@));
            }
            lemma_unique_within(byte_strings(all@), universe);
            assert(seq![default_theme()].len() == 1);
        }
        let parents = parents_of(indexes, all[index].as_slice());
        let ghost before = byte_strings(all@);
        let mut j: usize = 0;
        while j < parents.len()
            invariant
                universe.len() == all_parents(indexes@).len() + 1,
                forall|w: int| 0 <= w < all_parents(indexes@).len() ==> universe[w + 1] == all_parents(indexes@)[w],
                index < all@.len(),
                index < before.len(),
                j <= parents@.len(),
                all@[0]@ == default_theme(),
                byte_strings(parents@) == theme_parents(indexes@, before[index as int]),
                byte_strings(all@) == add_missing(before, byte_strings(parents@).subrange(0, j as int)),
                byte_strings(all@).no_duplicates(),
                forall|k: int| 0 <= k < all@.len() ==> universe.contains(#[trigger] all@[k]@),
            decreases parents@.len() - j,
        {
            let ghost ps = byte_strings(parents@);
            assert(ps.subrange(0, j + 1).drop_last() == ps.subrange(0, j as int));
            assert(ps.subrange(0, j + 1).last() == parents@[j as int]@);
            if !contains_bytes(&all, parents[j].as_slice()) {
                let copy = slice_to_vec(parents[j].as_slice(), 0, parents[j].len());
                assert(copy@ =~= parents@[j as int]@);
                proof {
                    assert(ps[j as int] == parents@[j as int]@);
                    assert(ps.contains(parents@[j as int]@));
                    lemma_parents_named(indexes@, before[index as int], parents@[j as int]@);
                    let a = all_parents(indexes@);
                    let w = choose|w: int| 0 <= w < a.len() && a[w] == parents@[j as int]@;
                    assert(0 <= w < a.len());
                    assert(seq![default_theme()].len() == 1);
                    assert(universe[w + 1] == parents@[j as int]@);
                }
                let ghost old_all = byte_strings(all@);
                all.push(copy);
                assert(byte_strings(all@) =~= old_all.push(parents@[j as int]@));
            }
            j = j + 1;
        }
        assert(byte_strings(parents@).subrange(0, j as int) == byte_strings(parents@));
        assert(chain_from(indexes@, before, index as nat, (bound - index) as nat) == chain_from(
            indexes@,
            byte_strings(all@),
            (index + 1) as nat,
            (bound - index - 1) as nat,
        ));
        index = index + 1;
    }
    all
}

} // verus!
