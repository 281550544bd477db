//! Name → candidate-icon-path index over the themes of an inheritance chain.

use vstd::prelude::*;

use crate::bytes::{
    bytes_eq, copy_bytes, find_bytes, last_index, last_index_of, lemma_find_from, lemma_last_index,
    slice_to_vec,
};

verus! {

/// Kind of an icon file, from the theme subdirectory it was found in.
#[derive(Debug, Clone, Copy, PartialEq, Eq, Structural, Hash)]
pub enum ImageType {
    /// A bitmap image of a known square size.
    SizedBitmap(u32),
    /// A bitmap image of an unknown size.
    Bitmap,
    /// A vector image.
    Scalable,
    /// A monochrome vector image.
    Symbolic,
}

/// Distance of `n` from the target size.
pub open spec fn size_distance(n: u32, size: u32) -> int {
    if n >= size {
        n - size
    } else {
        size - n
    }
}

/// Preference of a format when looking for an icon of `size` pixels, higher is
/// better: scalable, then sized bitmaps by nearest size (ties favour the larger),
/// then unsized bitmaps, then symbolic icons. Distinct formats rank differently.
pub open spec fn image_rank(t: ImageType, size: u32) -> int {
    match t {
        ImageType::Scalable => 0x4_0000_0000,
        ImageType::SizedBitmap(n) => 2 + 2 * (0x1_0000_0000 - size_distance(n, size)) + (if n > size {
            1int
        } else {
            0int
        }),
        ImageType::Bitmap => 1,
        ImageType::Symbolic => 0,
    }
}

/// The format that a lookup for `size` picks among `formats`: an exact size
/// wins outright, otherwise the highest rank.
pub open spec fn is_best(formats: Map<ImageType, Seq<u8>>, t: ImageType, size: u32) -> bool {
    &&& formats.contains_key(t)
    &&& if formats.contains_key(ImageType::SizedBitmap(size)) {
        t == ImageType::SizedBitmap(size)
    } else {
        forall|o: ImageType| #[trigger] formats.contains_key(o) ==> image_rank(o, size) <= image_rank(t, size)
    }
}

/// Value of a string of decimal digits.
pub open spec fn digits_value(s: Seq<u8>) -> int
    decreases s.len(),
{
    if s.len() == 0 {
        0
    } else {
        digits_value(s.drop_last()) * 10 + (s.last() - 48)
    }
}

pub open spec fn all_digits(s: Seq<u8>) -> bool {
    forall|i: int| 0 <= i < s.len() ==> 48 <= #[trigger] s[i] <= 57
}

/// What `u32::from_str` accepts: an optional `+`, then one or more digits
/// whose value fits.
pub open spec fn parse_u32_spec(s: Seq<u8>) -> Option<u32> {
    let d = if s.len() > 0 && s[0] == 43 {
        s.drop_first()
    } else {
        s
    };
    if d.len() > 0 && all_digits(d) && digits_value(d) <= u32::MAX {
        Some(digits_value(d) as u32)
    } else {
        None
    }
}

/// `scalable`
pub open spec fn scalable_dir() -> Seq<u8> {
    seq![115u8, 99u8, 97u8, 108u8, 97u8, 98u8, 108u8, 101u8]
}

/// `symbolic`
pub open spec fn symbolic_dir() -> Seq<u8> {
    seq![115u8, 121u8, 109u8, 98u8, 111u8, 108u8, 105u8, 99u8]
}

/// `-symbolic`
pub open spec fn symbolic_suffix() -> Seq<u8> {
    seq![45u8, 115u8, 121u8, 109u8, 98u8, 111u8, 108u8, 105u8, 99u8]
}

/// Format of the icons in a theme subdirectory: `scalable`, `symbolic`, or
/// `NxN` with both sides equal; other directories are skipped.
pub open spec fn classify_dir_spec(dir: Seq<u8>) -> Option<ImageType> {
    if dir == scalable_dir() {
        Some(ImageType::Scalable)
    } else if dir == symbolic_dir() {
        Some(ImageType::Symbolic)
    } else {
        let x = crate::bytes::find_from(dir, seq![120u8], 0);
        if x < 0 {
            None
        } else {
            match (parse_u32_spec(dir.subrange(0, x)), parse_u32_spec(dir.subrange(x + 1, dir.len() as int))) {
                (Some(w), Some(h)) => if w == h {
                    Some(ImageType::SizedBitmap(w))
                } else {
                    None
                },
                _ => None,
            }
        }
    }
}

/// Icon name of a theme file: the file name up to its last dot, which must
/// not be empty; symbolic icons must end in `-symbolic`, which is dropped.
pub open spec fn icon_name_spec(file_name: Seq<u8>, t: ImageType) -> Option<Seq<u8>> {
    let dot = last_index_of(file_name, 46);
    if dot <= 0 {
        None
    } else {
        let stem = file_name.subrange(0, dot);
        if t == ImageType::Symbolic {
            let n = symbolic_suffix().len();
            if stem.len() >= n && stem.subrange(stem.len() - n, stem.len() as int) == symbolic_suffix() {
                Some(stem.subrange(0, stem.len() - n))
            } else {
                None
            }
        } else {
            Some(stem)
        }
    }
}

/// Icon name and format of a loose file in the fallback directory: `.svg`
/// files are scalable, `.png` files unsized bitmaps.
pub open spec fn pixmap_spec(file_name: Seq<u8>) -> Option<(Seq<u8>, ImageType)> {
    let dot = last_index_of(file_name, 46);
    if dot < 0 {
        None
    } else {
        let ext = file_name.subrange(dot + 1, file_name.len() as int);
        if ext == seq![115u8, 118u8, 103u8] {
            Some((file_name.subrange(0, dot), ImageType::Scalable))
        } else if ext == seq![112u8, 110u8, 103u8] {
            Some((file_name.subrange(0, dot), ImageType::Bitmap))
        } else {
            None
        }
    }
}

/// A file found in a theme: the theme, the subdirectory right below the
/// theme directory, the file name and its full path.
pub struct ThemeFile {
    pub theme: Vec<u8>,
    pub dir_name: Vec<u8>,
    pub file_name: Vec<u8>,
    pub path: Vec<u8>,
}

/// A loose file of the fallback directory.
pub struct PixmapFile {
    pub file_name: Vec<u8>,
    pub path: Vec<u8>,
}

/// What the index holds for one name: the owning theme (none for the
/// fallback directory) and a path per format.
pub type IconEntryModel = (Option<Seq<u8>>, Map<ImageType, Seq<u8>>);

/// The index after one more theme file. A name belongs to the first theme
/// that has it; files of other themes are ignored for it.
pub open spec fn theme_step(m: Map<Seq<u8>, IconEntryModel>, f: ThemeFile) -> Map<Seq<u8>, IconEntryModel> {
    match classify_dir_spec(f.dir_name@) {
        None => m,
        Some(t) => match icon_name_spec(f.file_name@, t) {
            None => m,
            Some(name) => if m.contains_key(name) {
                if m[name].0 == Some(f.theme@) {
                    m.insert(name, (m[name].0, m[name].1.insert(t, f.path@)))
                } else {
                    m
                }
            } else {
                m.insert(name, (Some(f.theme@), map![t => f.path@]))
            },
        },
    }
}

/// The index after one more fallback file, which only adds unclaimed names.
pub open spec fn pixmap_step(m: Map<Seq<u8>, IconEntryModel>, f: PixmapFile) -> Map<Seq<u8>, IconEntryModel> {
    match pixmap_spec(f.file_name@) {
        None => m,
        Some((name, t)) => if m.contains_key(name) {
            m
        } else {
            m.insert(name, (None, map![t => f.path@]))
        },
    }
}

/// The index of theme files taken in order of priority.
pub open spec fn theme_index(files: Seq<ThemeFile>) -> Map<Seq<u8>, IconEntryModel>
    decreases files.len(),
{
    if files.len() == 0 {
        Map::empty()
    } else {
        theme_step(theme_index(files.drop_last()), files.last())
    }
}

/// The index after the fallback files.
pub open spec fn full_index(files: Seq<ThemeFile>, pixmaps: Seq<PixmapFile>) -> Map<Seq<u8>, IconEntryModel>
    decreases pixmaps.len(),
{
    if pixmaps.len() == 0 {
        theme_index(files)
    } else {
        pixmap_step(full_index(files, pixmaps.drop_last()), pixmaps.last())
    }
}

/// One format of an indexed icon.
pub struct IconFormat {
    pub image_type: ImageType,
    pub path: Vec<u8>,
}

/// All formats of one indexed icon name.
pub struct IconRecord {
    pub name: Vec<u8>,
    pub theme: Option<Vec<u8>>,
    pub formats: Vec<IconFormat>,
}

pub open spec fn theme_view(t: Option<Vec<u8>>) -> Option<Seq<u8>> {
    match t {
        Some(v) => Some(v@),
        None => None,
    }
}

pub open spec fn formats_agree(fs: Seq<IconFormat>, fm: Map<ImageType, Seq<u8>>) -> bool {
    &&& forall|k: int| 0 <= k < fs.len() ==> #[trigger] fm.contains_key(fs[k].image_type) && fm[fs[k].image_type] == fs[k].path@
    &&& forall|t: ImageType| #[trigger] fm.contains_key(t) ==> exists|k: int| 0 <= k < fs.len() && fs[k].image_type == t
    &&& forall|k: int, l: int| 0 <= k < l < fs.len() ==> fs[k].image_type != fs[l].image_type
}

pub open spec fn record_agrees(r: IconRecord, e: IconEntryModel) -> bool {
    &&& theme_view(r.theme) == e.0
    &&& formats_agree(r.formats@, e.1)
    &&& r.formats@.len() > 0
}

pub open spec fn index_agrees(rs: Seq<IconRecord>, m: Map<Seq<u8>, IconEntryModel>) -> bool {
    &&& forall|i: int| 0 <= i < rs.len() ==> #[trigger] m.contains_key(rs[i].name@) && record_agrees(rs[i], m[rs[i].name@])
    &&& forall|n: Seq<u8>| #[trigger] m.contains_key(n) ==> exists|i: int| 0 <= i < rs.len() && rs[i].name@ == n
    &&& forall|i: int, j: int| 0 <= i < j < rs.len() ==> rs[i].name@ != rs[j].name@
}

/// Index of icon names to their candidate files.
pub struct IconLoader {
    records: Vec<IconRecord>,
    model: Ghost<Map<Seq<u8>, IconEntryModel>>,
}

impl IconLoader {
    /// What the index maps each icon name to.
    pub closed spec fn entries(&self) -> Map<Seq<u8>, IconEntryModel> {
        self.model@
    }

    pub closed spec fn wf(&self) -> bool {
        index_agrees(self.records@, self.model@)
    }
}


proof fn lemma_digits_prefix(s: Seq<u8>, k: int)
    requires
        all_digits(s),
        0 <= k <= s.len(),
    ensures
        digits_value(s.subrange(0, k)) <= digits_value(s),
        0 <= digits_value(s.subrange(0, k)),
    decreases s.len(),
{
    if k < s.len() {
        let d = s.drop_last();
        assert(d.subrange(0, k) == s.subrange(0, k));
        assert(all_digits(d));
        lemma_digits_prefix(d, k);
        lemma_digits_prefix(d, d.len() as int);
        assert(d.subrange(0, d.len() as int) == d);
    } else {
        assert(s.subrange(0, k) == s);
        if s.len() > 0 {
            let d = s.drop_last();
            assert(all_digits(d));
            lemma_digits_prefix(d, d.len() as int);
            assert(d.subrange(0, d.len() as int) == d);
        }
    }
}

/// Decimal number as `u32::from_str` reads it.
pub fn parse_u32(s: &[u8]) -> (r: Option<u32>)
    ensures
        r == parse_u32_spec(s@),
{
    let start: usize = if s.len() > 0 && s[0] == 43 {
        1
    } else {
        0
    };
    let ghost d = s@.subrange(start as int, s@.len() as int);
    assert(d == if s@.len() > 0 && s@[0] == 43 {
        s@.drop_first()
    } else {
        s@
    });
    if start == s.len() {
        return None;
    }
    let mut value: u64 = 0;
    let mut i: usize = start;
    while i < s.len()
        invariant
            start <= i <= s@.len(),
            d == s@.subrange(start as int, s@.len() as int),
            d == if s@.len() > 0 && s@[0] == 43 {
                s@.drop_first()
            } else {
                s@
            },
            all_digits(s@.subrange(start as int, i as int)),
            value as int == digits_value(s@.subrange(start as int, i as int)),
            value <= u32::MAX,
        decreases s@.len() - i,
    {
        let c = s[i];
        let ghost next = s@.subrange(start as int, i + 1);
        assert(next.drop_last() == s@.subrange(start as int, i as int));
        if c < 48 || c > 57 {
            assert(d[i - start] == c);
            return None;
        }
        assert(all_digits(next));
        value = value * 10 + (c - 48) as u64;
        if value > 0xFFFF_FFFF {
            proof {
                if all_digits(d) {
                    lemma_digits_prefix(d, i + 1 - start);
                    assert(d.subrange(0, i + 1 - start) == next);
                }
            }
            return None;
        }
        i = i + 1;
    }
    assert(s@.subrange(start as int, i as int) == d);
    Some(value as u32)
}

/// Format of the icons in a theme subdirectory.
pub fn classify_dir(dir: &[u8]) -> (r: Option<ImageType>)
    ensures
        r == classify_dir_spec(dir@),
{
    let scalable: Vec<u8> = vec![115u8, 99u8, 97u8, 108u8, 97u8, 98u8, 108u8, 101u8];
    let symbolic: Vec<u8> = vec![115u8, 121u8, 109u8, 98u8, 111u8, 108u8, 105u8, 99u8];
    assert(scalable@ == scalable_dir());
    assert(symbolic@ == symbolic_dir());
    if bytes_eq(dir, scalable.as_slice()) {
        return Some(ImageType::Scalable);
    }
    if bytes_eq(dir, symbolic.as_slice()) {
        return Some(ImageType::Symbolic);
    }
    let x_key: Vec<u8> = vec![120u8];
    assert(x_key@ == seq![120u8]);
    match find_bytes(dir, x_key.as_slice(), 0) {
        None => None,
        Some(x) => {
            proof {
                lemma_find_from(dir@, x_key@, 0);
            }
            let n: usize = dir.len();
            assert(x + 1 <= n);
            let width = slice_to_vec(dir, 0, x);
            let height = slice_to_vec(dir, x + 1, dir.len());
            match (parse_u32(width.as_slice()), parse_u32(height.as_slice())) {
                (Some(w), Some(h)) => if w == h {
                    Some(ImageType::SizedBitmap(w))
                } else {
                    None
                },
                _ => None,
            }
        },
    }
}

/// Icon name of a file in a theme subdirectory of format `t`.
pub fn icon_name(file_name: &[u8], t: ImageType) -> (r: Option<Vec<u8>>)
    ensures
        match r {
            Some(v) => icon_name_spec(file_name@, t) == Some(v@),
            None => icon_name_spec(file_name@, t).is_none(),
        },
{
    proof {
        lemma_last_index(file_name@, 46);
    }
    let dot = match last_index(file_name, 46) {
        Some(d) => d,
        None => return None,
    };
    if dot == 0 {
        return None;
    }
    let stem = slice_to_vec(file_name, 0, dot);
    if t == ImageType::Symbolic {
        let suffix: Vec<u8> = vec![45u8, 115u8, 121u8, 109u8, 98u8, 111u8, 108u8, 105u8, 99u8];
        assert(suffix@ == symbolic_suffix());
        if stem.len() < 9 {
            return None;
        }
        let tail = slice_to_vec(stem.as_slice(), stem.len() - 9, stem.len());
        if !bytes_eq(tail.as_slice(), suffix.as_slice()) {
            return None;
        }
        Some(slice_to_vec(stem.as_slice(), 0, stem.len() - 9))
    } else {
        Some(stem)
    }
}

/// Icon name and format of a loose fallback file.
pub fn pixmap_kind(file_name: &[u8]) -> (r: Option<(Vec<u8>, ImageType)>)
    ensures
        match r {
            Some((v, t)) => pixmap_spec(file_name@) == Some((v@, t)),
            None => pixmap_spec(file_name@).is_none(),
        },
{
    proof {
        lemma_last_index(file_name@, 46);
    }
    let dot = match last_index(file_name, 46) {
        Some(d) => d,
        None => return None,
    };
    let n: usize = file_name.len();
    assert(dot < n);
    let ext = slice_to_vec(file_name, dot + 1, n);
    let svg: Vec<u8> = vec![115u8, 118u8, 103u8];
    let png: Vec<u8> = vec![112u8, 110u8, 103u8];
    assert(svg@ == seq![115u8, 118u8, 103u8]);
    assert(png@ == seq![112u8, 110u8, 103u8]);
    if bytes_eq(ext.as_slice(), svg.as_slice()) {
        Some((slice_to_vec(file_name, 0, dot), ImageType::Scalable))
    } else if bytes_eq(ext.as_slice(), png.as_slice()) {
        Some((slice_to_vec(file_name, 0, dot), ImageType::Bitmap))
    } else {
        None
    }
}

proof fn lemma_formats_set(fs: Seq<IconFormat>, fm: Map<ImageType, Seq<u8>>, k: int, f: IconFormat)
    requires
        formats_agree(fs, fm),
        0 <= k < fs.len(),
        fs[k].image_type == f.image_type,
    ensures
        formats_agree(fs.update(k, f), fm.insert(f.image_type, f.path@)),
{
    let fs2 = fs.update(k, f);
    let fm2 = fm.insert(f.image_type, f.path@);
    assert forall|j: int| 0 <= j < fs2.len() implies #[trigger] fm2.contains_key(fs2[j].image_type) && fm2[fs2[j].image_type] == fs2[j].path@ by {
        if j != k {
            assert(fs[j].image_type != fs[k].image_type);
            assert(fm.contains_key(fs[j].image_type));
        }
    }
    assert forall|a: int, b: int| 0 <= a < b < fs2.len() implies fs2[a].image_type != fs2[b].image_type by {
        if a != k && b != k {
            assert(fs[a].image_type != fs[b].image_type);
        } else if a == k {
            assert(fs[k].image_type != fs[b].image_type);
        } else {
            assert(fs[a].image_type != fs[k].image_type);
        }
    }
    assert forall|t: ImageType| #[trigger] fm2.contains_key(t) implies exists|j: int| 0 <= j < fs2.len() && fs2[j].image_type == t by {
        if t == f.image_type {
            assert(fs2[k].image_type == t);
        } else {
            let j = choose|j: int| 0 <= j < fs.len() && fs[j].image_type == t;
            assert(fs2[j].image_type == t);
        }
    }
}

proof fn lemma_formats_push(fs: Seq<IconFormat>, fm: Map<ImageType, Seq<u8>>, f: IconFormat)
    requires
        formats_agree(fs, fm),
        !fm.contains_key(f.image_type),
    ensures
        formats_agree(fs.push(f), fm.insert(f.image_type, f.path@)),
{
    let fs2 = fs.push(f);
    let fm2 = fm.insert(f.image_type, f.path@);
    assert forall|t: ImageType| #[trigger] fm2.contains_key(t) implies exists|j: int| 0 <= j < fs2.len() && fs2[j].image_type == t by {
        if t == f.image_type {
            assert(fs2[fs.len() as int].image_type == t);
        } else {
            let j = choose|j: int| 0 <= j < fs.len() && fs[j].image_type == t;
            assert(fs2[j].image_type == t);
        }
    }
    assert forall|k: int, l: int| 0 <= k < l < fs2.len() implies fs2[k].image_type != fs2[l].image_type by {
        if l == fs.len() {
            assert(fm.contains_key(fs[k].image_type));
        }
    }
}

proof fn lemma_formats_single(f: IconFormat)
    ensures
        formats_agree(seq![f], map![f.image_type => f.path@]),
{
    let fm = map![f.image_type => f.path@];
    assert forall|t: ImageType| #[trigger] fm.contains_key(t) implies exists|j: int| 0 <= j < seq![f].len() && seq![f][j].image_type == t by {
        assert(seq![f][0].image_type == t);
    }
}

proof fn lemma_index_update(rs: Seq<IconRecord>, m: Map<Seq<u8>, IconEntryModel>, i: int, r: IconRecord, e: IconEntryModel)
    requires
        index_agrees(rs, m),
        0 <= i < rs.len(),
        rs[i].name@ == r.name@,
        record_agrees(r, e),
    ensures
        index_agrees(rs.update(i, r), m.insert(r.name@, e)),
{
    let rs2 = rs.update(i, r);
    let m2 = m.insert(r.name@, e);
    assert forall|j: int| 0 <= j < rs2.len() implies #[trigger] m2.contains_key(rs2[j].name@) && record_agrees(rs2[j], m2[rs2[j].name@]) by {
        if j != i {
            assert(rs[j].name@ != rs[i].name@);
            assert(m.contains_key(rs[j].name@));
        }
    }
    assert forall|n: Seq<u8>| #[trigger] m2.contains_key(n) implies exists|j: int| 0 <= j < rs2.len() && rs2[j].name@ == n by {
        if n == r.name@ {
            assert(rs2[i].name@ == n);
        } else {
            let j = choose|j: int| 0 <= j < rs.len() && rs[j].name@ == n;
            assert(rs2[j].name@ == n);
        }
    }
    assert forall|a: int, b: int| 0 <= a < b < rs2.len() implies rs2[a].name@ != rs2[b].name@ by {
        if a != i && b != i {
            assert(rs[a].name@ != rs[b].name@);
        }
    }
}

proof fn lemma_index_push(rs: Seq<IconRecord>, m: Map<Seq<u8>, IconEntryModel>, r: IconRecord, e: IconEntryModel)
    requires
        index_agrees(rs, m),
        !m.contains_key(r.name@),
        record_agrees(r, e),
    ensures
        index_agrees(rs.push(r), m.insert(r.name@, e)),
{
    let rs2 = rs.push(r);
    let m2 = m.insert(r.name@, e);
    assert forall|j: int| 0 <= j < rs2.len() implies #[trigger] m2.contains_key(rs2[j].name@) && record_agrees(rs2[j], m2[rs2[j].name@]) by {
        if j < rs.len() {
            assert(rs2[j] == rs[j]);
            assert(m.contains_key(rs[j].name@));
        }
    }
    assert forall|n: Seq<u8>| #[trigger] m2.contains_key(n) implies exists|j: int| 0 <= j < rs2.len() && rs2[j].name@ == n by {
        if n == r.name@ {
            assert(rs2[rs.len() as int].name@ == n);
        } else {
            let j = choose|j: int| 0 <= j < rs.len() && rs[j].name@ == n;
            assert(rs2[j].name@ == n);
        }
    }
    assert forall|a: int, b: int| 0 <= a < b < rs2.len() implies rs2[a].name@ != rs2[b].name@ by {
        if b == rs.len() {
            assert(m.contains_key(rs[a].name@));
        }
    }
}

impl IconLoader {
    fn find_record(&self, name: &[u8]) -> (r: Option<usize>)
        ensures
            match r {
                Some(i) => i < self.records@.len() && self.records@[i as int].name@ == name@,
                None => forall|i: int| 0 <= i < self.records@.len() ==> self.records@[i].name@ != name@,
            },
    {
        let mut i: usize = 0;
        while i < self.records.len()
            invariant
                i <= self.records@.len(),
                forall|j: int| 0 <= j < i ==> self.records@[j].name@ != name@,
            decreases self.records@.len() - i,
        {
            if bytes_eq(self.records[i].name.as_slice(), name) {
                return Some(i);
            }
            i = i + 1;
        }
        None
    }

    /// Record a path for `name` in format `t` on behalf of `theme`.
    fn add(&mut self, name: Vec<u8>, theme: Option<Vec<u8>>, t: ImageType, path: Vec<u8>, claim_only: bool)
        requires
            old(self).wf(),
        ensures
            final(self).wf(),
            final(self).entries() == if old(self).entries().contains_key(name@) {
                if !claim_only && old(self).entries()[name@].0 == theme_view(theme) {
                    old(self).entries().insert(
                        name@,
                        (theme_view(theme), old(self).entries()[name@].1.insert(t, path@)),
                    )
                } else {
                    old(self).entries()
                }
            } else {
                old(self).entries().insert(name@, (theme_view(theme), map![t => path@]))
            },
    {
        let ghost m = self.model@;
        match self.find_record(name.as_slice()) {
            None => {
                proof {
                    if m.contains_key(name@) {
                        let j = choose|j: int| 0 <= j < self.records@.len() && self.records@[j].name@ == name@;
                    }
                }
                let f = IconFormat { image_type: t, path };
                let mut formats: Vec<IconFormat> = Vec::new();
                formats.push(f);
                proof {
                    lemma_formats_single(f);
                    assert(formats@ == seq![f]);
                }
                let rec = IconRecord { name, theme, formats };
                proof {
                    lemma_index_push(self.records@, m, rec, (theme_view(rec.theme), map![t => path@]));
                }
                self.records.push(rec);
                self.model = Ghost(m.insert(rec.name@, (theme_view(rec.theme), map![t => path@])));
            },
            Some(i) => {
                proof {
                    assert(m.contains_key(self.records@[i as int].name@));
                }
                if claim_only {
                    return;
                }
                let same = match (&self.records[i].theme, &theme) {
                    (Some(a), Some(b)) => bytes_eq(a.as_slice(), b.as_slice()),
                    (None, None) => true,
                    _ => false,
                };
                if !same {
                    return;
                }
                let ghost rs = self.records@;
                let mut rec = self.records.remove(i);
                let ghost e = m[name@];
                let ghost fs = rec.formats@;
                let mut k: usize = 0;
                let mut found: Option<usize> = None;
                while k < rec.formats.len()
                    invariant
                        rec.formats@ == fs,
                        k <= fs.len(),
                        found.is_none() ==> forall|j: int| 0 <= j < k ==> fs[j].image_type != t,
                        found.is_some() ==> found.unwrap() < fs.len() && fs[found.unwrap() as int].image_type == t,
                    decreases fs.len() - k,
                {
                    if found.is_none() && rec.formats[k].image_type == t {
                        found = Some(k);
                    }
                    k = k + 1;
                }
                let f = IconFormat { image_type: t, path };
                match found {
                    Some(j) => {
                        proof {
                            lemma_formats_set(fs, e.1, j as int, f);
                        }
                        rec.formats.set(j, f);
                    },
                    None => {
                        proof {
                            if e.1.contains_key(t) {
                                let w = choose|w: int| 0 <= w < fs.len() && fs[w].image_type == t;
                            }
                            lemma_formats_push(fs, e.1, f);
                        }
                        rec.formats.push(f);
                    },
                }
                let ghost e2 = (e.0, e.1.insert(t, path@));
                proof {
                    lemma_index_update(rs, m, i as int, rec, e2);
                }
                self.records.insert(i, rec);
                assert(self.records@ =~= rs.update(i as int, rec));
                self.model = Ghost(m.insert(name@, e2));
            },
        }
    }
}


/// Rank of a format as a machine integer.
fn rank(t: ImageType, size: u32) -> (r: u64)
    ensures
        r as int == image_rank(t, size),
{
    match t {
        ImageType::Scalable => 0x4_0000_0000,
        ImageType::SizedBitmap(n) => {
            let dist: u64 = if n >= size {
                (n - size) as u64
            } else {
                (size - n) as u64
            };
            let above: u64 = if n > size {
                1
            } else {
                0
            };
            2 + 2 * (0x1_0000_0000 - dist) + above
        },
        ImageType::Bitmap => 1,
        ImageType::Symbolic => 0,
    }
}

impl IconLoader {
    /// Index the files of the themes of a chain, in order of priority, then
    /// the loose files of the fallback directory.
    pub fn new(files: &Vec<ThemeFile>, pixmaps: &Vec<PixmapFile>) -> (r: Self)
        ensures
            r.wf(),
            r.entries() == full_index(files@, pixmaps@),
    {
        let mut loader = IconLoader { records: Vec::new(), model: Ghost(Map::empty()) };
        let mut i: usize = 0;
        while i < files.len()
            invariant
                i <= files@.len(),
                loader.wf(),
                loader.entries() == theme_index(files@.subrange(0, i as int)),
            decreases files@.len() - i,
        {
            let f = &files[i];
            assert(files@.subrange(0, i + 1).drop_last() == files@.subrange(0, i as int));
            assert(files@.subrange(0, i + 1).last() == *f);
            match classify_dir(f.dir_name.as_slice()) {
                None => {},
                Some(t) => match icon_name(f.file_name.as_slice(), t) {
                    None => {},
                    Some(name) => {
                        loader.add(name, Some(copy_bytes(&f.theme)), t, copy_bytes(&f.path), false);
                    },
                },
            }
            i = i + 1;
        }
        assert(files@.subrange(0, i as int) == files@);
        let mut j: usize = 0;
        while j < pixmaps.len()
            invariant
                j <= pixmaps@.len(),
                loader.wf(),
                loader.entries() == full_index(files@, pixmaps@.subrange(0, j as int)),
            decreases pixmaps@.len() - j,
        {
            let f = &pixmaps[j];
            assert(pixmaps@.subrange(0, j + 1).drop_last() == pixmaps@.subrange(0, j as int));
            assert(pixmaps@.subrange(0, j + 1).last() == *f);
            match pixmap_kind(f.file_name.as_slice()) {
                None => {},
                Some((name, t)) => {
                    loader.add(name, None, t, copy_bytes(&f.path), true);
                },
            }
            j = j + 1;
        }
        assert(pixmaps@.subrange(0, j as int) == pixmaps@);
        loader
    }

    /// Path of the best file for icon `icon` at `size` pixels: an exact size
    /// if there is one, else the highest ranked format. `None` where the name
    /// is not indexed.
    pub fn icon_path(&self, icon: &[u8], size: u32) -> (r: Option<Vec<u8>>)
        requires
            self.wf(),
        ensures
            match r {
                None => !self.entries().contains_key(icon@),
                Some(p) => self.entries().contains_key(icon@) && exists|t: ImageType|
                    is_best(self.entries()[icon@].1, t, size) && #[trigger] self.entries()[icon@].1[t] == p@,
            },
    {
        let i = match self.find_record(icon) {
            None => {
                proof {
                    if self.entries().contains_key(icon@) {
                        let j = choose|j: int| 0 <= j < self.records@.len() && self.records@[j].name@ == icon@;
                    }
                }
                return None;
            },
            Some(i) => i,
        };
        let ghost fm = self.model@[icon@].1;
        assert(self.model@.contains_key(self.records@[i as int].name@));
        assert(record_agrees(self.records@[i as int], self.model@[icon@]));
        let formats = &self.records[i].formats;
        let mut best: usize = 0;
        let mut k: usize = 0;
        while k < formats.len()
            invariant
                i < self.records@.len(),
                fm == self.model@[icon@].1,
                self.model@.contains_key(icon@),
                formats@ == self.records@[i as int].formats@,
                formats_agree(formats@, fm),
                formats@.len() > 0,
                best < formats@.len(),
                k <= formats@.len(),
                forall|j: int| 0 <= j < k ==> formats@[j].image_type != ImageType::SizedBitmap(size),
                forall|j: int| 0 <= j < k ==> image_rank(formats@[j].image_type, size) <= image_rank(formats@[best as int].image_type, size),
            decreases formats@.len() - k,
        {
            if formats[k].image_type == ImageType::SizedBitmap(size) {
                let t = formats[k].image_type;
                assert(fm.contains_key(formats@[k as int].image_type));
                assert(fm[t] == formats@[k as int].path@);
                let p = copy_bytes(&formats[k].path);
                assert(is_best(fm, t, size) && self.entries()[icon@].1[t] == p@);
                return Some(p);
            }
            if rank(formats[k].image_type, size) > rank(formats[best].image_type, size) {
                best = k;
            }
            k = k + 1;
        }
        let t = formats[best].image_type;
        assert forall|o: ImageType| #[trigger] fm.contains_key(o) implies image_rank(o, size) <= image_rank(t, size) by {
            let w = choose|w: int| 0 <= w < formats@.len() && formats@[w].image_type == o;
            assert(image_rank(formats@[w].image_type, size) <= image_rank(formats@[best as int].image_type, size));
        }
        assert(fm.contains_key(formats@[best as int].image_type));
        proof {
            if fm.contains_key(ImageType::SizedBitmap(size)) {
                let w = choose|w: int| 0 <= w < formats@.len() && formats@[w].image_type == ImageType::SizedBitmap(size);
            }
        }
        assert(fm[t] == formats@[best as int].path@);
        let p = copy_bytes(&formats[best].path);
        assert(is_best(fm, t, size) && self.entries()[icon@].1[t] == p@);
        Some(p)
    }
}

/// Whether `p` is the path of a file of `theme` among `files`.
pub open spec fn path_of_theme(files: Seq<ThemeFile>, theme: Seq<u8>, p: Seq<u8>) -> bool {
    exists|k: int| 0 <= k < files.len() && files[k].theme@ == theme && #[trigger] files[k].path@ == p
}

/// Whether `p` is the path of one of the fallback files.
pub open spec fn path_of_pixmap(pixmaps: Seq<PixmapFile>, p: Seq<u8>) -> bool {
    exists|k: int| 0 <= k < pixmaps.len() && #[trigger] pixmaps[k].path@ == p
}

/// Where the icons of an index come from: each path of a name owned by a
/// theme is a file of that theme, each path of an unowned name a fallback file.
pub open spec fn owned_by_sources(m: Map<Seq<u8>, IconEntryModel>, files: Seq<ThemeFile>, pixmaps: Seq<PixmapFile>) -> bool {
    forall|name: Seq<u8>, t: ImageType| #![trigger m[name].1.contains_key(t)] m.contains_key(name) && m[name].1.contains_key(t) ==> match m[name].0 {
        Some(theme) => path_of_theme(files, theme, m[name].1[t]),
        None => path_of_pixmap(pixmaps, m[name].1[t]),
    }
}

proof fn lemma_theme_sources(files: Seq<ThemeFile>)
    ensures
        owned_by_sources(theme_index(files), files, Seq::empty()),
        forall|name: Seq<u8>| #[trigger] theme_index(files).contains_key(name) ==> theme_index(files)[name].0.is_some(),
        forall|name: Seq<u8>| #[trigger] theme_index(files).contains_key(name) ==> exists|t: ImageType| theme_index(files)[name].1.contains_key(t),
    decreases files.len(),
{
    if files.len() > 0 {
        let pre = files.drop_last();
        let f = files.last();
        let last = files.len() - 1;
        assert(files[last] == f);
        lemma_theme_sources(pre);
        let m0 = theme_index(pre);
        let m = theme_index(files);
        assert(m == theme_step(m0, f));
        assert forall|th: Seq<u8>, p: Seq<u8>| path_of_theme(pre, th, p) implies path_of_theme(files, th, p) by {
            let k = choose|k: int| 0 <= k < pre.len() && pre[k].theme@ == th && #[trigger] pre[k].path@ == p;
            assert(files[k] == pre[k]);
        }
        assert forall|name: Seq<u8>, t: ImageType| #![trigger m[name].1.contains_key(t)] m.contains_key(name) && m[name].1.contains_key(t) implies match m[name].0 {
            Some(theme) => path_of_theme(files, theme, m[name].1[t]),
            None => path_of_pixmap(Seq::empty(), m[name].1[t]),
        } by {
            if m0.contains_key(name) && m[name].0 == m0[name].0 && m0[name].1.contains_key(t) && m[name].1[t] == m0[name].1[t] {
                assert(path_of_theme(pre, m0[name].0.unwrap(), m0[name].1[t]));
            } else {
                assert(files[last].theme@ == m[name].0.unwrap() && files[last].path@ == m[name].1[t]);
            }
        }
        assert forall|name: Seq<u8>| #[trigger] m.contains_key(name) implies exists|t: ImageType| m[name].1.contains_key(t) by {
            if m0.contains_key(name) {
                let t0 = choose|t: ImageType| m0[name].1.contains_key(t);
                assert(m[name].1.contains_key(t0));
            } else {
                let t = classify_dir_spec(f.dir_name@).unwrap();
                assert(m[name].1.contains_key(t));
            }
        }
    }
}

proof fn lemma_full_sources(files: Seq<ThemeFile>, pixmaps: Seq<PixmapFile>)
    ensures
        owned_by_sources(full_index(files, pixmaps), files, pixmaps),
        forall|name: Seq<u8>| #[trigger] full_index(files, pixmaps).contains_key(name) ==> exists|t: ImageType| full_index(files, pixmaps)[name].1.contains_key(t),
    decreases pixmaps.len(),
{
    if pixmaps.len() == 0 {
        lemma_theme_sources(files);
        let m = theme_index(files);
        assert forall|name: Seq<u8>, t: ImageType| #![trigger m[name].1.contains_key(t)] m.contains_key(name) && m[name].1.contains_key(t) implies match m[name].0 {
            Some(theme) => path_of_theme(files, theme, m[name].1[t]),
            None => path_of_pixmap(pixmaps, m[name].1[t]),
        } by {
            assert(m[name].0.is_some());
        }
    } else {
        let pre = pixmaps.drop_last();
        let f = pixmaps.last();
        let last = pixmaps.len() - 1;
        assert(pixmaps[last] == f);
        lemma_full_sources(files, pre);
        let m0 = full_index(files, pre);
        let m = full_index(files, pixmaps);
        assert(m == pixmap_step(m0, f));
        assert forall|p: Seq<u8>| path_of_pixmap(pre, p) implies path_of_pixmap(pixmaps, p) by {
            let k = choose|k: int| 0 <= k < pre.len() && #[trigger] pre[k].path@ == p;
            assert(pixmaps[k] == pre[k]);
        }
        assert forall|name: Seq<u8>, t: ImageType| #![trigger m[name].1.contains_key(t)] m.contains_key(name) && m[name].1.contains_key(t) implies match m[name].0 {
            Some(theme) => path_of_theme(files, theme, m[name].1[t]),
            None => path_of_pixmap(pixmaps, m[name].1[t]),
        } by {
            if m0.contains_key(name) {
                assert(m[name] == m0[name]);
            } else {
                assert(pixmaps[last].path@ == m[name].1[t]);
            }
        }
        assert forall|name: Seq<u8>| #[trigger] m.contains_key(name) implies exists|t: ImageType| m[name].1.contains_key(t) by {
            if m0.contains_key(name) {
                assert(m[name] == m0[name]);
                let t0 = choose|t: ImageType| m0[name].1.contains_key(t);
                assert(m[name].1.contains_key(t0));
            } else {
                match pixmap_spec(f.file_name@) {
                    Some((n, t)) => {
                        assert(m[name].1.contains_key(t));
                    },
                    None => {},
                }
            }
        }
    }
}

/// Every icon of the index built from files of the themes of a chain, and
/// from the fallback directory, belongs to a theme of that chain or to the
/// fallback directory; each of its paths is one of that owner's files.
pub proof fn lemma_resolved_theme_in_chain(
    chain: Seq<Seq<u8>>,
    files: Seq<ThemeFile>,
    pixmaps: Seq<PixmapFile>,
    name: Seq<u8>,
)
    requires
        forall|k: int| 0 <= k < files.len() ==> chain.contains(#[trigger] files[k].theme@),
        full_index(files, pixmaps).contains_key(name),
    ensures
        match full_index(files, pixmaps)[name].0 {
            Some(theme) => chain.contains(theme),
            None => true,
        },
        owned_by_sources(full_index(files, pixmaps), files, pixmaps),
{
    lemma_full_sources(files, pixmaps);
    let m = full_index(files, pixmaps);
    if m[name].0.is_some() {
        let t = choose|t: ImageType| m[name].1.contains_key(t);
        assert(path_of_theme(files, m[name].0.unwrap(), m[name].1[t]));
        let k = choose|k: int| 0 <= k < files.len() && files[k].theme@ == m[name].0.unwrap() && #[trigger] files[k].path@ == m[name].1[t];
        assert(chain.contains(files[k].theme@));
    }
}

} // verus!
