//! The catalog of launchable entries: desktop-entry files of several roots,
//! merged by file name, after three built-in actions.

use vstd::prelude::*;

use crate::bytes::{
    byte_strings, bytes_eq, copy_bytes, last_index, last_index_of, lemma_last_index, slice_to_vec,
};
use crate::entry::{opt_view, parse_desktop_entry, parse_entry_spec, ParsedEntry};
use crate::index::{is_best, IconEntryModel, IconLoader, ImageType};
use crate::order::{lemma_lex_total, lemma_lex_trans, lex_le, lex_le_bytes};

verus! {

/// What choosing an entry does.
#[derive(Clone, PartialEq, Eq, Debug)]
pub enum ExecAction {
    Poweroff,
    Config,
    Reboot,
    /// Run a command line.
    Run(Vec<u8>),
}

/// A desktop-entry file found in one of the roots.
pub struct DesktopFile {
    /// File name, which identifies the entry across roots.
    pub filename: Vec<u8>,
    /// Full path of the file.
    pub path: Vec<u8>,
    pub content: Vec<u8>,
}

/// One launchable entry or built-in action.
pub struct DesktopEntry {
    pub icon_name: Option<Vec<u8>>,
    pub name: Vec<u8>,
    pub action: ExecAction,
    /// Files that currently mark this entry hidden; empty when it is visible.
    pub hidden_paths: Vec<Vec<u8>>,
    /// File name that identifies the entry across roots.
    pub filename: Vec<u8>,
}

/// Name, icon, command and hiding files of an entry.
pub type EntryModel = (Seq<u8>, Option<Seq<u8>>, Seq<u8>, Seq<Seq<u8>>);

pub open spec fn command_of(a: ExecAction) -> Seq<u8> {
    match a {
        ExecAction::Run(c) => c@,
        _ => Seq::empty(),
    }
}

impl DesktopEntry {
    pub open spec fn model(&self) -> EntryModel {
        (self.name@, opt_view(self.icon_name), command_of(self.action), byte_strings(self.hidden_paths@))
    }

    /// Whether the entry is marked hidden.
    pub fn hidden(&self) -> (r: bool)
        ensures
            r == (self.hidden_paths@.len() > 0),
    {
        self.hidden_paths.len() > 0
    }
}

/// The catalog after one more file, taken in ascending priority. A file
/// marked `NoDisplay=true` adds itself to the hiding files of an earlier
/// entry of that name; a file without `Exec` removes the earlier entry; a file
/// with `Exec` and `Name` replaces it; one with `Exec` and no `Name` changes
/// nothing.
pub open spec fn merge_step(m: Map<Seq<u8>, EntryModel>, f: DesktopFile) -> Map<Seq<u8>, EntryModel> {
    let p = parse_entry_spec(f.content@);
    let key = f.filename@;
    if p.3 {
        if m.contains_key(key) {
            m.insert(key, (m[key].0, m[key].1, m[key].2, m[key].3.push(f.path@)))
        } else {
            m
        }
    } else {
        match p.2 {
            None => m.remove(key),
            Some(command) => match p.0 {
                Some(name) => m.insert(key, (name, p.1, command, Seq::empty())),
                None => m,
            },
        }
    }
}

/// Entries by file name after all files, in ascending priority.
pub open spec fn merged(files: Seq<DesktopFile>) -> Map<Seq<u8>, EntryModel>
    decreases files.len(),
{
    if files.len() == 0 {
        Map::empty()
    } else {
        merge_step(merged(files.drop_last()), files.last())
    }
}

/// `rs` holds exactly the entries of `m`, each once.
pub open spec fn run_agrees(rs: Seq<DesktopEntry>, m: Map<Seq<u8>, EntryModel>) -> bool {
    &&& forall|i: int| 0 <= i < rs.len() ==> (#[trigger] rs[i]).action is Run && m.contains_key(rs[i].filename@) && m[rs[i].filename@] == rs[i].model()
    &&& forall|f: Seq<u8>| #[trigger] m.contains_key(f) ==> exists|i: int| 0 <= i < rs.len() && rs[i].filename@ == f
    &&& forall|i: int, j: int| 0 <= i < j < rs.len() ==> rs[i].filename@ != rs[j].filename@
}

/// Entries in order of name.
pub open spec fn names_sorted(rs: Seq<DesktopEntry>) -> bool {
    forall|i: int, j: int| 0 <= i < j < rs.len() ==> lex_le(rs[i].name@, rs[j].name@)
}

proof fn lemma_run_update(rs: Seq<DesktopEntry>, m: Map<Seq<u8>, EntryModel>, i: int, e: DesktopEntry)
    requires
        run_agrees(rs, m),
        names_sorted(rs),
        0 <= i < rs.len(),
        rs[i].filename@ == e.filename@,
        rs[i].name@ == e.name@,
        e.action is Run,
    ensures
        run_agrees(rs.update(i, e), m.insert(e.filename@, e.model())),
        names_sorted(rs.update(i, e)),
{
    let rs2 = rs.update(i, e);
    let m2 = m.insert(e.filename@, e.model());
    assert forall|j: int| 0 <= j < rs2.len() implies (#[trigger] rs2[j]).action is Run && m2.contains_key(rs2[j].filename@) && m2[rs2[j].filename@] == rs2[j].model() by {
        if j != i {
            assert(rs[j].filename@ != rs[i].filename@);
            assert(rs[j] == rs2[j]);
        }
    }
    assert forall|f: Seq<u8>| #[trigger] m2.contains_key(f) implies exists|j: int| 0 <= j < rs2.len() && rs2[j].filename@ == f by {
        if f == e.filename@ {
            assert(rs2[i].filename@ == f);
        } else {
            let j = choose|j: int| 0 <= j < rs.len() && rs[j].filename@ == f;
            assert(rs2[j].filename@ == f);
        }
    }
    assert forall|a: int, b: int| 0 <= a < b < rs2.len() implies rs2[a].filename@ != rs2[b].filename@ by {
        if a != i && b != i {
            assert(rs[a].filename@ != rs[b].filename@);
        }
    }
    assert forall|a: int, b: int| 0 <= a < b < rs2.len() implies lex_le(rs2[a].name@, rs2[b].name@) by {
        assert(lex_le(rs[a].name@, rs[b].name@));
    }
}

proof fn lemma_run_remove(rs: Seq<DesktopEntry>, m: Map<Seq<u8>, EntryModel>, i: int)
    requires
        run_agrees(rs, m),
        names_sorted(rs),
        0 <= i < rs.len(),
    ensures
        run_agrees(rs.remove(i), m.remove(rs[i].filename@)),
        names_sorted(rs.remove(i)),
{
    let rs2 = rs.remove(i);
    let m2 = m.remove(rs[i].filename@);
    assert forall|j: int| 0 <= j < rs2.len() implies (#[trigger] rs2[j]).action is Run && m2.contains_key(rs2[j].filename@) && m2[rs2[j].filename@] == rs2[j].model() by {
        let k = if j < i { j } else { j + 1 };
        assert(rs2[j] == rs[k]);
        assert(rs[k].filename@ != rs[i].filename@);
    }
    assert forall|f: Seq<u8>| #[trigger] m2.contains_key(f) implies exists|j: int| 0 <= j < rs2.len() && rs2[j].filename@ == f by {
        let k = choose|k: int| 0 <= k < rs.len() && rs[k].filename@ == f;
        if k < i {
            assert(rs2[k].filename@ == f);
        } else {
            assert(rs2[k - 1].filename@ == f);
        }
    }
    assert forall|a: int, b: int| 0 <= a < b < rs2.len() implies rs2[a].filename@ != rs2[b].filename@ by {
        let ka = if a < i { a } else { a + 1 };
        let kb = if b < i { b } else { b + 1 };
        assert(rs[ka].filename@ != rs[kb].filename@);
    }
    assert forall|a: int, b: int| 0 <= a < b < rs2.len() implies lex_le(rs2[a].name@, rs2[b].name@) by {
        let ka = if a < i { a } else { a + 1 };
        let kb = if b < i { b } else { b + 1 };
        assert(lex_le(rs[ka].name@, rs[kb].name@));
    }
}

proof fn lemma_run_insert(rs: Seq<DesktopEntry>, m: Map<Seq<u8>, EntryModel>, p: int, e: DesktopEntry)
    requires
        run_agrees(rs, m),
        names_sorted(rs),
        0 <= p <= rs.len(),
        !m.contains_key(e.filename@),
        e.action is Run,
        forall|j: int| 0 <= j < p ==> lex_le(#[trigger] rs[j].name@, e.name@),
        forall|j: int| p <= j < rs.len() ==> lex_le(e.name@, #[trigger] rs[j].name@),
    ensures
        run_agrees(rs.insert(p, e), m.insert(e.filename@, e.model())),
        names_sorted(rs.insert(p, e)),
{
    let rs2 = rs.insert(p, e);
    let m2 = m.insert(e.filename@, e.model());
    assert forall|j: int| 0 <= j < rs2.len() implies (#[trigger] rs2[j]).action is Run && m2.contains_key(rs2[j].filename@) && m2[rs2[j].filename@] == rs2[j].model() by {
        if j != p {
            let k = if j < p { j } else { j - 1 };
            assert(rs2[j] == rs[k]);
            assert(m.contains_key(rs[k].filename@));
        }
    }
    assert forall|f: Seq<u8>| #[trigger] m2.contains_key(f) implies exists|j: int| 0 <= j < rs2.len() && rs2[j].filename@ == f by {
        if f == e.filename@ {
            assert(rs2[p].filename@ == f);
        } else {
            let k = choose|k: int| 0 <= k < rs.len() && rs[k].filename@ == f;
            if k < p {
                assert(rs2[k].filename@ == f);
            } else {
                assert(rs2[k + 1].filename@ == f);
            }
        }
    }
    assert forall|a: int, b: int| 0 <= a < b < rs2.len() implies rs2[a].filename@ != rs2[b].filename@ by {
        if a == p {
            assert(m.contains_key(rs[b - 1].filename@));
        } else if b == p {
            assert(m.contains_key(rs[a].filename@));
        } else {
            let ka = if a < p { a } else { a - 1 };
            let kb = if b < p { b } else { b - 1 };
            assert(rs[ka].filename@ != rs[kb].filename@);
        }
    }
    assert forall|a: int, b: int| 0 <= a < b < rs2.len() implies lex_le(rs2[a].name@, rs2[b].name@) by {
        if a == p {
            assert(lex_le(e.name@, rs[b - 1].name@));
        } else if b == p {
            assert(lex_le(rs[a].name@, e.name@));
        } else {
            let ka = if a < p { a } else { a - 1 };
            let kb = if b < p { b } else { b - 1 };
            if a < p && b > p {
                assert(lex_le(rs[ka].name@, e.name@));
                assert(lex_le(e.name@, rs[kb].name@));
                lemma_lex_trans(rs[ka].name@, e.name@, rs[kb].name@);
            } else {
                assert(lex_le(rs[ka].name@, rs[kb].name@));
            }
        }
    }
}

/// Position of the entry with file name `filename`.
fn find_filename(rs: &Vec<DesktopEntry>, filename: &[u8]) -> (r: Option<usize>)
    ensures
        match r {
            Some(i) => i < rs@.len() && rs@[i as int].filename@ == filename@,
            None => forall|i: int| 0 <= i < rs@.len() ==> rs@[i].filename@ != filename@,
        },
{
    let mut i: usize = 0;
    while i < rs.len()
        invariant
            i <= rs@.len(),
            forall|j: int| 0 <= j < i ==> rs@[j].filename@ != filename@,
        decreases rs@.len() - i,
    {
        if bytes_eq(rs[i].filename.as_slice(), filename) {
            return Some(i);
        }
        i = i + 1;
    }
    None
}

/// Where an entry named `name` goes among entries in order of name: after
/// every entry that sorts before it or equals it.
fn sorted_position(rs: &Vec<DesktopEntry>, name: &[u8]) -> (p: usize)
    requires
        names_sorted(rs@),
    ensures
        p <= rs@.len(),
        forall|j: int| 0 <= j < p ==> lex_le(#[trigger] rs@[j].name@, name@),
        forall|j: int| p <= j < rs@.len() ==> lex_le(name@, #[trigger] rs@[j].name@),
{
    let mut p: usize = 0;
    while p < rs.len() && lex_le_bytes(rs[p].name.as_slice(), name)
        invariant
            p <= rs@.len(),
            forall|j: int| 0 <= j < p ==> lex_le(#[trigger] rs@[j].name@, name@),
        decreases rs@.len() - p,
    {
        p = p + 1;
    }
    if p < rs.len() {
        proof {
            lemma_lex_total(rs@[p as int].name@, name@);
            assert forall|j: int| p <= j < rs@.len() implies lex_le(name@, #[trigger] rs@[j].name@) by {
                if j > p {
                    assert(lex_le(rs@[p as int].name@, rs@[j].name@));
                    lemma_lex_trans(name@, rs@[p as int].name@, rs@[j].name@);
                }
            }
        }
    }
    p
}

/// Merge desktop-entry files, given in ascending priority, into entries in
/// order of name.
pub fn merge_files(files: &Vec<DesktopFile>) -> (r: Vec<DesktopEntry>)
    ensures
        run_agrees(r@, merged(files@)),
        names_sorted(r@),
{
    let mut run: Vec<DesktopEntry> = Vec::new();
    let mut i: usize = 0;
    while i < files.len()
        invariant
            i <= files@.len(),
            run_agrees(run@, merged(files@.subrange(0, i as int))),
            names_sorted(run@),
        decreases files@.len() - i,
    {
        let f = &files[i];
        let ghost m = merged(files@.subrange(0, i as int));
        assert(files@.subrange(0, i + 1).drop_last() == files@.subrange(0, i as int));
        assert(files@.subrange(0, i + 1).last() == *f);
        let ParsedEntry { name, icon, command, hidden } = parse_desktop_entry(f.content.as_slice());
        let found = find_filename(&run, f.filename.as_slice());
        proof {
            if found.is_none() && m.contains_key(f.filename@) {
                let k = choose|k: int| 0 <= k < run@.len() && run@[k].filename@ == f.filename@;
            }
        }
        if hidden {
            if let Some(k) = found {
                let ghost before = run@;
                let mut e = run.remove(k);
                assert(m.contains_key(e.filename@));
                let ghost hp = byte_strings(e.hidden_paths@);
                e.hidden_paths.push(copy_bytes(&f.path));
                assert(byte_strings(e.hidden_paths@) =~= hp.push(f.path@));
                proof {
                    lemma_run_update(before, m, k as int, e);
                }
                run.insert(k, e);
                assert(run@ =~= before.update(k as int, e));
            }
        } else {
            match command {
                None => {
                    if let Some(k) = found {
                        proof {
                            lemma_run_remove(run@, m, k as int);
                        }
                        run.remove(k);
                    } else {
                        assert(m.remove(f.filename@) =~= m);
                    }
                },
                Some(cmd) => match name {
                    Some(nm) => {
                        let ghost m1 = m;
                        if let Some(k) = found {
                            proof {
                                lemma_run_remove(run@, m, k as int);
                                m1 = m.remove(f.filename@);
                            }
                            run.remove(k);
                        }
                        let e = DesktopEntry {
                            icon_name: icon,
                            name: nm,
                            action: ExecAction::Run(cmd),
                            hidden_paths: Vec::new(),
                            filename: copy_bytes(&f.filename),
                        };
                        assert(byte_strings(e.hidden_paths@) =~= Seq::<Seq<u8>>::empty());
                        let p = sorted_position(&run, e.name.as_slice());
                        proof {
                            lemma_run_insert(run@, m1, p as int, e);
                            assert(m1.insert(e.filename@, e.model()) =~= m.insert(e.filename@, e.model()));
                        }
                        run.insert(p, e);
                    },
                    None => {},
                },
            }
        }
        i = i + 1;
    }
    assert(files@.subrange(0, i as int) == files@);
    run
}


/// Type of an icon's data.
#[derive(Hash, PartialEq, Eq, Structural, Copy, Clone, Debug)]
pub enum IconType {
    Svg,
    Png,
}

/// Identity of an icon: a file, or one of the embedded images.
#[derive(Hash, Clone, Debug)]
pub enum IconIdentifier {
    Path(Vec<u8>),
    Placeholder,
    Poweroff,
    Config,
    Reboot,
    Hidden,
}

/// An icon to draw: its identity and data format. Two icons are equal when
/// their identities and formats are.
#[derive(Hash, Clone, Debug)]
pub struct Icon {
    pub identifier: IconIdentifier,
    pub icon_type: IconType,
}

/// Variant of an identifier and the path of a `Path` one.
pub open spec fn identifier_key(i: IconIdentifier) -> (int, Seq<u8>) {
    match i {
        IconIdentifier::Path(p) => (0, p@),
        IconIdentifier::Placeholder => (1, Seq::empty()),
        IconIdentifier::Poweroff => (2, Seq::empty()),
        IconIdentifier::Config => (3, Seq::empty()),
        IconIdentifier::Reboot => (4, Seq::empty()),
        IconIdentifier::Hidden => (5, Seq::empty()),
    }
}

impl Icon {
    /// What identifies an icon: variant, path and format.
    pub open spec fn key(&self) -> (int, Seq<u8>, IconType) {
        (identifier_key(self.identifier).0, identifier_key(self.identifier).1, self.icon_type)
    }

    /// An embedded vector image.
    pub fn new_svg(identifier: IconIdentifier) -> (r: Self)
        ensures
            r.identifier == identifier,
            r.icon_type == IconType::Svg,
    {
        Icon { identifier, icon_type: IconType::Svg }
    }

    /// The data format of the icon.
    pub fn icon_type(&self) -> (r: IconType)
        ensures
            r == self.icon_type,
    {
        self.icon_type
    }
}

impl PartialEq for Icon {
    fn eq(&self, o: &Icon) -> (r: bool) {
        let same_id = match (&self.identifier, &o.identifier) {
            (IconIdentifier::Path(a), IconIdentifier::Path(b)) => bytes_eq(a.as_slice(), b.as_slice()),
            (IconIdentifier::Placeholder, IconIdentifier::Placeholder) => true,
            (IconIdentifier::Poweroff, IconIdentifier::Poweroff) => true,
            (IconIdentifier::Config, IconIdentifier::Config) => true,
            (IconIdentifier::Reboot, IconIdentifier::Reboot) => true,
            (IconIdentifier::Hidden, IconIdentifier::Hidden) => true,
            _ => false,
        };
        same_id && self.icon_type == o.icon_type
    }
}

impl vstd::std_specs::cmp::PartialEqSpecImpl for Icon {
    open spec fn obeys_eq_spec() -> bool {
        true
    }

    open spec fn eq_spec(&self, o: &Icon) -> bool {
        self.key() == o.key()
    }
}

impl Eq for Icon {
}

/// The extension of the last component of a path, after its last dot; a
/// component that starts with its only dot has none.
pub open spec fn extension_spec(path: Seq<u8>) -> Option<Seq<u8>> {
    let file = path.subrange(last_index_of(path, 47) + 1, path.len() as int);
    let dot = last_index_of(file, 46);
    if dot <= 0 {
        None
    } else {
        Some(file.subrange(dot + 1, file.len() as int))
    }
}

/// Format of an icon file by its extension: `png`, or `svg` and `svgz`.
pub open spec fn icon_type_spec(path: Seq<u8>) -> Option<IconType> {
    match extension_spec(path) {
        Some(e) => if e == seq![112u8, 110u8, 103u8] {
            Some(IconType::Png)
        } else if e == seq![115u8, 118u8, 103u8] || e == seq![115u8, 118u8, 103u8, 122u8] {
            Some(IconType::Svg)
        } else {
            None
        },
        None => None,
    }
}

/// `r` is the icon of the file at `path`, or the placeholder where the
/// extension is not one of an image.
pub open spec fn icon_of_path(r: Icon, path: Seq<u8>) -> bool {
    match icon_type_spec(path) {
        Some(t) => r.key() == (0int, path, t),
        None => r.key() == (1int, Seq::<u8>::empty(), IconType::Svg),
    }
}

/// The icon of an entry whose name is looked up in the index at `size`.
pub open spec fn icon_spec(r: Icon, entry: DesktopEntry, icons: Map<Seq<u8>, IconEntryModel>, size: u32) -> bool {
    if entry.hidden_paths@.len() > 0 {
        r.key() == (5int, Seq::<u8>::empty(), IconType::Svg)
    } else {
        match entry.action {
            ExecAction::Poweroff => r.key() == (2int, Seq::<u8>::empty(), IconType::Svg),
            ExecAction::Config => r.key() == (3int, Seq::<u8>::empty(), IconType::Svg),
            ExecAction::Reboot => r.key() == (4int, Seq::<u8>::empty(), IconType::Svg),
            ExecAction::Run(_) => match entry.icon_name {
                None => r.key() == (1int, Seq::<u8>::empty(), IconType::Svg),
                Some(n) => if n@.len() > 0 && n@[0] == 47 {
                    icon_of_path(r, n@)
                } else if !icons.contains_key(n@) {
                    r.key() == (1int, Seq::<u8>::empty(), IconType::Svg)
                } else {
                    exists|t: ImageType| is_best(icons[n@].1, t, size) && #[trigger] icon_of_path(r, icons[n@].1[t])
                },
            },
        }
    }
}

/// Format of an icon file by its extension.
pub fn icon_type_of(path: &[u8]) -> (r: Option<IconType>)
    ensures
        r == icon_type_spec(path@),
{
    proof {
        lemma_last_index(path@, 47);
    }
    let n: usize = path.len();
    let start: usize = match last_index(path, 47) {
        Some(s) => s + 1,
        None => 0,
    };
    let file = slice_to_vec(path, start, path.len());
    proof {
        lemma_last_index(file@, 46);
    }
    let dot = match last_index(file.as_slice(), 46) {
        Some(d) => d,
        None => return None,
    };
    if dot == 0 {
        return None;
    }
    let ext = slice_to_vec(file.as_slice(), dot + 1, file.len());
    let png: Vec<u8> = vec![112u8, 110u8, 103u8];
    let svg: Vec<u8> = vec![115u8, 118u8, 103u8];
    let svgz: Vec<u8> = vec![115u8, 118u8, 103u8, 122u8];
    assert(png@ == seq![112u8, 110u8, 103u8]);
    assert(svg@ == seq![115u8, 118u8, 103u8]);
    assert(svgz@ == seq![115u8, 118u8, 103u8, 122u8]);
    if bytes_eq(ext.as_slice(), png.as_slice()) {
        Some(IconType::Png)
    } else if bytes_eq(ext.as_slice(), svg.as_slice()) || bytes_eq(ext.as_slice(), svgz.as_slice()) {
        Some(IconType::Svg)
    } else {
        None
    }
}

fn path_icon(path: Vec<u8>) -> (r: Icon)
    ensures
        icon_of_path(r, path@),
{
    match icon_type_of(path.as_slice()) {
        Some(t) => Icon { identifier: IconIdentifier::Path(path), icon_type: t },
        None => Icon::new_svg(IconIdentifier::Placeholder),
    }
}

/// All entries: three built-in actions, then the applications.
pub struct DesktopEntries {
    entries: Vec<DesktopEntry>,
    loader: IconLoader,
}

impl View for DesktopEntries {
    type V = Seq<DesktopEntry>;

    closed spec fn view(&self) -> Seq<DesktopEntry> {
        self.entries@
    }
}

/// Positions of the entries without hiding files, in order.
pub open spec fn visible_positions(s: Seq<DesktopEntry>) -> Seq<int>
    decreases s.len(),
{
    if s.len() == 0 {
        Seq::empty()
    } else {
        let a = visible_positions(s.drop_last());
        if s.last().hidden_paths@.len() == 0 {
            a.push(s.len() - 1)
        } else {
            a
        }
    }
}

pub open spec fn usize_seq(s: Seq<usize>) -> Seq<int> {
    Seq::new(s.len(), |i: int| s[i] as int)
}

/// The built-in entries, in their fixed order.
pub open spec fn builtins_first(s: Seq<DesktopEntry>) -> bool {
    &&& s.len() >= 3
    &&& s[0].action is Poweroff && s[0].name@ == seq![80u8, 111u8, 119u8, 101u8, 114u8, 111u8, 102u8, 102u8]
    &&& s[1].action is Config && s[1].name@ == seq![84u8, 97u8, 112u8, 32u8, 65u8, 112u8, 112u8]
    &&& s[2].action is Reboot && s[2].name@ == seq![82u8, 101u8, 98u8, 111u8, 111u8, 116u8]
    &&& s[0].hidden_paths@.len() == 0 && s[1].hidden_paths@.len() == 0 && s[2].hidden_paths@.len() == 0
}

impl DesktopEntries {
    pub closed spec fn wf(&self) -> bool {
        self.loader.wf()
    }

    /// The icon index that entries' icon names are looked up in.
    pub closed spec fn icons(&self) -> Map<Seq<u8>, IconEntryModel> {
        self.loader.entries()
    }

    /// The catalog of the built-in actions and the given desktop-entry files,
    /// which come in ascending priority (the user's own root last).
    pub fn new(files: &Vec<DesktopFile>, loader: IconLoader) -> (r: Self)
        requires
            loader.wf(),
        ensures
            r.wf(),
            r.icons() == loader.entries(),
            builtins_first(r@),
            run_agrees(r@.subrange(3, r@.len() as int), merged(files@)),
            names_sorted(r@.subrange(3, r@.len() as int)),
    {
        let mut entries: Vec<DesktopEntry> = Vec::new();
        entries.push(DesktopEntry {
            icon_name: None,
            name: vec![80u8, 111u8, 119u8, 101u8, 114u8, 111u8, 102u8, 102u8],
            action: ExecAction::Poweroff,
            hidden_paths: Vec::new(),
            filename: Vec::new(),
        });
        entries.push(DesktopEntry {
            icon_name: None,
            name: vec![84u8, 97u8, 112u8, 32u8, 65u8, 112u8, 112u8],
            action: ExecAction::Config,
            hidden_paths: Vec::new(),
            filename: Vec::new(),
        });
        entries.push(DesktopEntry {
            icon_name: None,
            name: vec![82u8, 101u8, 98u8, 111u8, 111u8, 116u8],
            action: ExecAction::Reboot,
            hidden_paths: Vec::new(),
            filename: Vec::new(),
        });
        let ghost head = entries@;
        let mut run = merge_files(files);
        let ghost tail = run@;
        entries.append(&mut run);
        assert(entries@.subrange(3, entries@.len() as int) =~= tail);
        DesktopEntries { entries, loader }
    }

    /// Every entry, hidden ones included.
    pub fn all(&self) -> (r: &[DesktopEntry])
        ensures
            r@ == self@,
    {
        self.entries.as_slice()
    }

    /// The entry at `index` among all entries.
    pub fn all_get(&self, index: usize) -> (r: Option<&DesktopEntry>)
        ensures
            match r {
                Some(e) => index < self@.len() && *e == self@[index as int],
                None => index >= self@.len(),
            },
    {
        if index < self.entries.len() {
            Some(&self.entries[index])
        } else {
            None
        }
    }

    /// Number of entries, hidden ones included.
    pub fn all_len(&self) -> (r: usize)
        ensures
            r == self@.len(),
    {
        self.entries.len()
    }

    /// Positions of the entries that are not hidden, in order.
    pub fn visible(&self) -> (r: Vec<usize>)
        ensures
            usize_seq(r@) == visible_positions(self@),
    {
        let mut r: Vec<usize> = Vec::new();
        let mut i: usize = 0;
        while i < self.entries.len()
            invariant
                i <= self@.len(),
                self@ == self.entries@,
                usize_seq(r@) == visible_positions(self@.subrange(0, i as int)),
            decreases self@.len() - i,
        {
            let ghost pre = self@.subrange(0, i + 1);
            assert(pre.drop_last() == self@.subrange(0, i as int));
            assert(pre.last() == self@[i as int]);
            if !self.entries[i].hidden() {
                r.push(i);
            }
            assert(usize_seq(r@) =~= visible_positions(pre));
            i = i + 1;
        }
        assert(self@.subrange(0, i as int) == self@);
        r
    }

    /// Drop the entry at `index`, if there is one.
    pub fn remove(&mut self, index: usize)
        ensures
            final(self)@ == if index < old(self)@.len() {
                old(self)@.remove(index as int)
            } else {
                old(self)@
            },
            final(self).wf() == old(self).wf(),
            final(self).icons() == old(self).icons(),
    {
        if index < self.entries.len() {
            self.entries.remove(index);
        }
    }

    /// Record that the file at `path` now marks the entry at `index` hidden.
    pub fn add_hidden_path(&mut self, index: usize, path: Vec<u8>)
        requires
            index < old(self)@.len(),
        ensures
            final(self)@.len() == old(self)@.len(),
            forall|j: int| 0 <= j < old(self)@.len() && j != index ==> final(self)@[j] == old(self)@[j],
            final(self)@[index as int].model() == (
                old(self)@[index as int].name@,
                opt_view(old(self)@[index as int].icon_name),
                command_of(old(self)@[index as int].action),
                byte_strings(old(self)@[index as int].hidden_paths@).push(path@),
            ),
            final(self)@[index as int].name == old(self)@[index as int].name,
            final(self)@[index as int].icon_name == old(self)@[index as int].icon_name,
            final(self)@[index as int].filename == old(self)@[index as int].filename,
            final(self)@[index as int].action == old(self)@[index as int].action,
            final(self).wf() == old(self).wf(),
            final(self).icons() == old(self).icons(),
    {
        let ghost before = self.entries@;
        let mut e = self.entries.remove(index);
        let ghost hp = byte_strings(e.hidden_paths@);
        e.hidden_paths.push(path);
        assert(byte_strings(e.hidden_paths@) =~= hp.push(path@));
        self.entries.insert(index, e);
        assert(self.entries@ =~= before.update(index as int, e));
    }

    /// Forget the files that mark the entry at `index` hidden, and hand them
    /// back.
    pub fn take_hidden_paths(&mut self, index: usize) -> (r: Vec<Vec<u8>>)
        requires
            index < old(self)@.len(),
        ensures
            r@ == old(self)@[index as int].hidden_paths@,
            final(self)@.len() == old(self)@.len(),
            forall|j: int| 0 <= j < old(self)@.len() && j != index ==> final(self)@[j] == old(self)@[j],
            final(self)@[index as int].hidden_paths@.len() == 0,
            final(self)@[index as int].name == old(self)@[index as int].name,
            final(self)@[index as int].icon_name == old(self)@[index as int].icon_name,
            final(self)@[index as int].filename == old(self)@[index as int].filename,
            final(self)@[index as int].action == old(self)@[index as int].action,
            final(self).wf() == old(self).wf(),
            final(self).icons() == old(self).icons(),
    {
        let ghost before = self.entries@;
        let mut e = self.entries.remove(index);
        let paths = e.hidden_paths;
        e.hidden_paths = Vec::new();
        self.entries.insert(index, e);
        assert(self.entries@ =~= before.update(index as int, e));
        paths
    }

    /// The icon to draw for `entry` at `size` pixels: the hidden marker for a
    /// hidden entry, the embedded image of a built-in action, else the file
    /// that its icon name gives (an absolute path as it stands, another name
    /// through the theme index), or the placeholder where there is none.
    pub fn icon(&self, entry: &DesktopEntry, size: u32) -> (r: Icon)
        requires
            self.wf(),
        ensures
            icon_spec(r, *entry, self.icons(), size),
    {
        if entry.hidden() {
            return Icon::new_svg(IconIdentifier::Hidden);
        }
        match &entry.action {
            ExecAction::Poweroff => Icon::new_svg(IconIdentifier::Poweroff),
            ExecAction::Config => Icon::new_svg(IconIdentifier::Config),
            ExecAction::Reboot => Icon::new_svg(IconIdentifier::Reboot),
            ExecAction::Run(_) => match &entry.icon_name {
                None => Icon::new_svg(IconIdentifier::Placeholder),
                Some(n) => {
                    if n.len() > 0 && n[0] == 47 {
                        path_icon(copy_bytes(n))
                    } else {
                        match self.loader.icon_path(n.as_slice(), size) {
                            None => Icon::new_svg(IconIdentifier::Placeholder),
                            Some(p) => {
                                let ghost pv = p@;
                                let r = path_icon(p);
                                proof {
                                    let t = choose|t: ImageType| is_best(self.icons()[n@].1, t, size) && #[trigger] self.icons()[n@].1[t] == pv;
                                    assert(icon_of_path(r, self.icons()[n@].1[t]));
                                }
                                r
                            },
                        }
                    }
                },
            },
        }
    }
}


/// What a tap on an entry asks for.
#[derive(Clone, Debug, PartialEq, Eq)]
pub enum TapAction {
    Nothing,
    Poweroff,
    Reboot,
    /// Enter or leave the mode that shows hidden entries and toggles them.
    ToggleConfig,
    /// Hide or show the entry at this position among all entries.
    ToggleHidden(usize),
    /// Run this command line.
    Launch(Vec<u8>),
}

/// The entry a tap at grid position `index` lands on: any entry while
/// configuring, otherwise only visible ones count.
pub open spec fn tap_target(s: Seq<DesktopEntry>, configuring: bool, index: int) -> Option<int> {
    if configuring {
        if 0 <= index < s.len() {
            Some(index)
        } else {
            None
        }
    } else if 0 <= index < visible_positions(s).len() {
        Some(visible_positions(s)[index])
    } else {
        None
    }
}

impl TapAction {
    /// Variant number (in declaration order) and the command of a launch.
    pub open spec fn key(&self) -> (int, int, Seq<u8>) {
        match self {
            TapAction::Nothing => (0, 0, Seq::empty()),
            TapAction::Poweroff => (1, 0, Seq::empty()),
            TapAction::Reboot => (2, 0, Seq::empty()),
            TapAction::ToggleConfig => (3, 0, Seq::empty()),
            TapAction::ToggleHidden(i) => (4, *i as int, Seq::empty()),
            TapAction::Launch(c) => (5, 0, c@),
        }
    }
}

/// What a tap does to the entry it lands on: built-in actions run unless
/// configuring (the configuration toggle always runs); applications launch,
/// or while configuring toggle their hidden state.
pub open spec fn tap_spec(s: Seq<DesktopEntry>, configuring: bool, index: int) -> (int, int, Seq<u8>) {
    match tap_target(s, configuring, index) {
        None => (0, 0, Seq::empty()),
        Some(j) => match s[j].action {
            ExecAction::Poweroff => if configuring {
                (0, 0, Seq::empty())
            } else {
                (1, 0, Seq::empty())
            },
            ExecAction::Reboot => if configuring {
                (0, 0, Seq::empty())
            } else {
                (2, 0, Seq::empty())
            },
            ExecAction::Config => (3, 0, Seq::empty()),
            ExecAction::Run(c) => if configuring {
                (4, j, Seq::empty())
            } else {
                (5, 0, c@)
            },
        },
    }
}

/// What a released tap at grid position `index` asks for.
pub fn tap_action(entries: &DesktopEntries, configuring: bool, index: usize) -> (r: TapAction)
    ensures
        r.key() == tap_spec(entries@, configuring, index as int),
{
    let target: Option<usize> = if configuring {
        if index < entries.all_len() {
            Some(index)
        } else {
            None
        }
    } else {
        let vis = entries.visible();
        if index < vis.len() {
            assert(usize_seq(vis@)[index as int] == vis@[index as int] as int);
            Some(vis[index])
        } else {
            None
        }
    };
    let j = match target {
        None => return TapAction::Nothing,
        Some(j) => j,
    };
    proof {
        if !configuring {
            lemma_visible_positions_bound(entries@);
        }
    }
    let entry = &entries.all()[j];
    match &entry.action {
        ExecAction::Poweroff => if configuring {
            TapAction::Nothing
        } else {
            TapAction::Poweroff
        },
        ExecAction::Reboot => if configuring {
            TapAction::Nothing
        } else {
            TapAction::Reboot
        },
        ExecAction::Config => TapAction::ToggleConfig,
        ExecAction::Run(c) => if configuring {
            TapAction::ToggleHidden(j)
        } else {
            TapAction::Launch(copy_bytes(c))
        },
    }
}

pub proof fn lemma_visible_positions_bound(s: Seq<DesktopEntry>)
    ensures
        visible_positions(s).len() <= s.len(),
        forall|k: int| 0 <= k < visible_positions(s).len() ==> 0 <= #[trigger] visible_positions(s)[k] < s.len(),
    decreases s.len(),
{
    if s.len() > 0 {
        let a = visible_positions(s.drop_last());
        lemma_visible_positions_bound(s.drop_last());
        assert forall|k: int| 0 <= k < visible_positions(s).len() implies 0 <= #[trigger] visible_positions(s)[k] < s.len() by {
            if k < a.len() {
                assert(visible_positions(s)[k] == a[k]);
            }
        }
    }
}

} // verus!
