//! Text edits that hide an entry, or show it again, through the
//! `NoDisplay=true` line of a desktop-entry file.

use vstd::prelude::*;

use crate::bytes::{find_bytes, find_from, matches_at, occurs_at, trim_end_spec, trim_start_spec};
use crate::entry::{trim_end, trim_start};

verus! {

/// `NoDisplay=true`
pub open spec fn marker_true() -> Seq<u8> {
    seq![78u8, 111u8, 68u8, 105u8, 115u8, 112u8, 108u8, 97u8, 121u8, 61u8, 116u8, 114u8, 117u8, 101u8]
}

/// `NoDisplay=false`
pub open spec fn marker_false() -> Seq<u8> {
    seq![78u8, 111u8, 68u8, 105u8, 115u8, 112u8, 108u8, 97u8, 121u8, 61u8, 102u8, 97u8, 108u8, 115u8, 101u8]
}

/// Whether `pat` occurs in `s`.
pub open spec fn contains_spec(s: Seq<u8>, pat: Seq<u8>) -> bool {
    find_from(s, pat, 0) >= 0
}

/// `s` with every occurrence of `from` replaced by `to`, left to right and
/// without overlaps.
pub open spec fn replace_spec(s: Seq<u8>, from: Seq<u8>, to: Seq<u8>) -> Seq<u8>
    decreases s.len(),
{
    if s.len() == 0 {
        Seq::empty()
    } else if from.len() > 0 && occurs_at(s, from, 0) {
        to + replace_spec(s.subrange(from.len() as int, s.len() as int), from, to)
    } else {
        seq![s[0]] + replace_spec(s.drop_first(), from, to)
    }
}

/// What showing an entry again does to one of the files that hide it.
#[derive(Debug, PartialEq, Eq)]
pub enum MarkerEdit {
    /// The file holds nothing but the marker: delete it.
    Remove,
    /// Write these contents, where the marker now says `false`.
    Write(Vec<u8>),
    /// The file does not hide the entry: leave it.
    Keep,
}

impl MarkerEdit {
    /// `0` for removal, `1` for a write of the given contents, `2` otherwise.
    pub open spec fn model(&self) -> (int, Seq<u8>) {
        match self {
            MarkerEdit::Remove => (0, Seq::empty()),
            MarkerEdit::Write(c) => (1, c@),
            MarkerEdit::Keep => (2, Seq::empty()),
        }
    }
}

/// What showing an entry does to a file with `content` that hides it.
pub open spec fn show_edit_spec(content: Seq<u8>) -> (int, Seq<u8>) {
    if trim_end_spec(trim_start_spec(content)) == marker_true() {
        (0, Seq::empty())
    } else if contains_spec(content, marker_true()) {
        (1, replace_spec(content, marker_true(), marker_false()))
    } else {
        (2, Seq::empty())
    }
}

/// The contents of the user's own file for an entry after hiding it: a new
/// file holds only the marker; an existing one has its `false` marker turned
/// to `true`, or gets the marker appended on a line of its own.
pub open spec fn hide_content_spec(existing: Option<Seq<u8>>) -> Seq<u8> {
    match existing {
        None => marker_true().push(10),
        Some(c) => if contains_spec(c, marker_false()) {
            replace_spec(c, marker_false(), marker_true())
        } else {
            c.push(10) + marker_true()
        },
    }
}

/// `s` with every occurrence of `from` replaced by `to`.
pub fn replace_all(s: &[u8], from: &[u8], to: &[u8]) -> (r: Vec<u8>)
    ensures
        r@ == replace_spec(s@, from@, to@),
{
    let mut out: Vec<u8> = Vec::new();
    let mut i: usize = 0;
    let n: usize = s.len();
    assert(s@.subrange(0, n as int) == s@);
    while i < n
        invariant
            n == s@.len(),
            i <= n,
            out@ + replace_spec(s@.subrange(i as int, n as int), from@, to@) == replace_spec(s@, from@, to@),
        decreases n - i,
    {
        let ghost rest = s@.subrange(i as int, n as int);
        if from.len() > 0 && matches_at(s, from, i) {
            assert(rest.subrange(0, from@.len() as int) =~= s@.subrange(i as int, i + from@.len()));
            assert(rest.subrange(from@.len() as int, rest.len() as int) =~= s@.subrange(i + from@.len(), n as int));
            let ghost before = out@;
            let mut j: usize = 0;
            while j < to.len()
                invariant
                    j <= to@.len(),
                    out@ == before + to@.subrange(0, j as int),
                decreases to@.len() - j,
            {
                out.push(to[j]);
                assert(out@ =~= before + to@.subrange(0, j + 1));
                j = j + 1;
            }
            assert(to@.subrange(0, j as int) == to@);
            assert(out@ + replace_spec(s@.subrange(i + from@.len(), n as int), from@, to@) =~= before + replace_spec(rest, from@, to@));
            i = i + from.len();
        } else {
            proof {
                if from@.len() > 0 {
                    if occurs_at(rest, from@, 0) {
                        assert(s@.subrange(i as int, i + from@.len()) =~= rest.subrange(0, from@.len() as int));
                    }
                }
            }
            assert(rest.drop_first() =~= s@.subrange(i + 1, n as int));
            let ghost before = out@;
            out.push(s[i]);
            assert(out@ + replace_spec(s@.subrange(i + 1, n as int), from@, to@) =~= before + replace_spec(rest, from@, to@));
            i = i + 1;
        }
    }
    assert(replace_spec(s@.subrange(i as int, n as int), from@, to@) == Seq::<u8>::empty());
    assert(out@ + Seq::<u8>::empty() == out@);
    out
}

fn marker_true_bytes() -> (r: Vec<u8>)
    ensures
        r@ == marker_true(),
{
    let r: Vec<u8> = vec![78u8, 111u8, 68u8, 105u8, 115u8, 112u8, 108u8, 97u8, 121u8, 61u8, 116u8, 114u8, 117u8, 101u8];
    assert(r@ == marker_true());
    r
}

fn marker_false_bytes() -> (r: Vec<u8>)
    ensures
        r@ == marker_false(),
{
    let r: Vec<u8> = vec![78u8, 111u8, 68u8, 105u8, 115u8, 112u8, 108u8, 97u8, 121u8, 61u8, 102u8, 97u8, 108u8, 115u8, 101u8];
    assert(r@ == marker_false());
    r
}

/// What showing an entry again does to a file with `content` that hides it.
pub fn show_edit(content: &[u8]) -> (r: MarkerEdit)
    ensures
        r.model() == show_edit_spec(content@),
{
    let yes = marker_true_bytes();
    let no = marker_false_bytes();
    let start = trim_start(content);
    let trimmed = trim_end(start.as_slice());
    if crate::bytes::bytes_eq(trimmed.as_slice(), yes.as_slice()) {
        return MarkerEdit::Remove;
    }
    match find_bytes(content, yes.as_slice(), 0) {
        Some(_) => MarkerEdit::Write(replace_all(content, yes.as_slice(), no.as_slice())),
        None => MarkerEdit::Keep,
    }
}

/// The contents of the user's own file for an entry after hiding it, given
/// its contents before (`None` where there is no such file yet).
pub fn hide_content(existing: Option<Vec<u8>>) -> (r: Vec<u8>)
    ensures
        r@ == hide_content_spec(match existing {
            Some(c) => Some(c@),
            None => None,
        }),
{
    let yes = marker_true_bytes();
    let no = marker_false_bytes();
    match existing {
        None => {
            let mut r = yes;
            r.push(10);
            r
        },
        Some(c) => match find_bytes(c.as_slice(), no.as_slice(), 0) {
            Some(_) => replace_all(c.as_slice(), no.as_slice(), yes.as_slice()),
            None => {
                let mut r = c;
                r.push(10);
                let ghost head = r@;
                let mut j: usize = 0;
                while j < yes.len()
                    invariant
                        j <= yes@.len(),
                        r@ == head + yes@.subrange(0, j as int),
                    decreases yes@.len() - j,
                {
                    r.push(yes[j]);
                    assert(r@ =~= head + yes@.subrange(0, j + 1));
                    j = j + 1;
                }
                assert(yes@.subrange(0, j as int) == yes@);
                r
            },
        },
    }
}

/// Hiding an entry that no file of the user's own describes creates a file
/// that showing it again deletes: toggling twice leaves no marker file behind.
pub proof fn lemma_hide_then_show_removes_marker()
    ensures
        show_edit_spec(hide_content_spec(None)) == (0int, Seq::<u8>::empty()),
{
    let m = marker_true();
    let c = m.push(10);
    assert(c[0] == 78);
    assert(trim_start_spec(c) == c);
    assert(c.drop_last() == m);
    assert(trim_end_spec(c) == trim_end_spec(m));
    assert(m.last() == 101);
    assert(trim_end_spec(m) == m);
}

proof fn lemma_no_n_prefix_kept(x: Seq<u8>, p: Seq<u8>)
    requires
        forall|k: int| 0 <= k < p.len() ==> p[k] != 78,
        replace_spec(x, marker_true(), marker_false()).len() >= p.len(),
        replace_spec(x, marker_true(), marker_false()).subrange(0, p.len() as int) == p,
    ensures
        x.len() >= p.len(),
        x.subrange(0, p.len() as int) == p,
    decreases p.len(),
{
    let t = marker_true();
    let f = marker_false();
    let out = replace_spec(x, t, f);
    if p.len() > 0 {
        assert(out.subrange(0, p.len() as int)[0] == p[0]);
        assert(x.len() > 0);
        if occurs_at(x, t, 0) {
            assert(out[0] == f[0]);
            assert(false);
        }
        let rest = replace_spec(x.drop_first(), t, f);
        assert(out == seq![x[0]] + rest);
        assert(x[0] == p[0]);
        assert(rest.subrange(0, p.len() - 1) =~= p.drop_first()) by {
            assert forall|k: int| 0 <= k < p.len() - 1 implies rest.subrange(0, p.len() - 1)[k] == p.drop_first()[k] by {
                assert(out.subrange(0, p.len() as int)[k + 1] == p[k + 1]);
            }
        }
        lemma_no_n_prefix_kept(x.drop_first(), p.drop_first());
        assert(x.subrange(0, p.len() as int) =~= p) by {
            assert forall|k: int| 0 <= k < p.len() implies x.subrange(0, p.len() as int)[k] == p[k] by {
                if k > 0 {
                    assert(x.drop_first().subrange(0, p.len() - 1)[k - 1] == p.drop_first()[k - 1]);
                }
            }
        }
    }
}

/// Turning every `NoDisplay=true` into `NoDisplay=false` leaves none.
pub proof fn lemma_shown_has_no_marker(s: Seq<u8>)
    ensures
        forall|i: int| !occurs_at(replace_spec(s, marker_true(), marker_false()), marker_true(), i),
    decreases s.len(),
{
    let t = marker_true();
    let f = marker_false();
    let out = replace_spec(s, t, f);
    if s.len() > 0 {
        if occurs_at(s, t, 0) {
            let r = s.subrange(t.len() as int, s.len() as int);
            lemma_shown_has_no_marker(r);
            let ro = replace_spec(r, t, f);
            assert(out == f + ro);
            assert forall|i: int| !occurs_at(out, t, i) by {
                if occurs_at(out, t, i) {
                    if i >= f.len() {
                        assert(ro.subrange(i - f.len(), i - f.len() + t.len()) =~= out.subrange(i, i + t.len()));
                        assert(occurs_at(ro, t, i - f.len()));
                    } else if i == 0 {
                        assert(out.subrange(i, i + t.len())[10] == t[10]);
                    } else {
                        assert(out.subrange(i, i + t.len())[0] == t[0]);
                        assert(out[i] == f[i]);
                    }
                }
            }
        } else {
            let s1 = s.drop_first();
            lemma_shown_has_no_marker(s1);
            let ro = replace_spec(s1, t, f);
            assert(out == seq![s[0]] + ro);
            assert forall|i: int| !occurs_at(out, t, i) by {
                if occurs_at(out, t, i) {
                    if i >= 1 {
                        assert(ro.subrange(i - 1, i - 1 + t.len()) =~= out.subrange(i, i + t.len()));
                        assert(occurs_at(ro, t, i - 1));
                    } else {
                        let p = t.drop_first();
                        assert(ro.subrange(0, p.len() as int) =~= p) by {
                            assert forall|k: int| 0 <= k < p.len() implies ro.subrange(0, p.len() as int)[k] == p[k] by {
                                assert(out.subrange(0, t.len() as int)[k + 1] == t[k + 1]);
                            }
                        }
                        lemma_no_n_prefix_kept(s1, p);
                        assert(s.subrange(0, t.len() as int) =~= t) by {
                            assert forall|k: int| 0 <= k < t.len() implies s.subrange(0, t.len() as int)[k] == t[k] by {
                                if k == 0 {
                                    assert(out.subrange(0, t.len() as int)[0] == t[0]);
                                } else {
                                    assert(s1.subrange(0, p.len() as int)[k - 1] == p[k - 1]);
                                }
                            }
                        }
                    }
                }
            }
        }
    }
}

/// Hiding an entry and showing it again leaves no `NoDisplay=true` marker
/// in the user's file for it, whatever that file held before: the file is
/// deleted, rewritten without a marker, or left as one without a marker. A
/// file that hiding created is deleted.
pub proof fn lemma_toggle_twice_leaves_no_marker(existing: Option<Seq<u8>>)
    ensures
        existing.is_none() ==> show_edit_spec(hide_content_spec(existing)).0 == 0,
        show_edit_spec(hide_content_spec(existing)).0 == 1 ==> !contains_spec(
            show_edit_spec(hide_content_spec(existing)).1,
            marker_true(),
        ),
        show_edit_spec(hide_content_spec(existing)).0 == 2 ==> !contains_spec(
            hide_content_spec(existing),
            marker_true(),
        ),
{
    if existing.is_none() {
        lemma_hide_then_show_removes_marker();
    }
    let h = hide_content_spec(existing);
    let w = replace_spec(h, marker_true(), marker_false());
    lemma_shown_has_no_marker(h);
    crate::bytes::lemma_find_from(w, marker_true(), 0);
}

} // verus!
