//! Memoized entry visuals, and which entries a frame draws.

use vstd::prelude::*;

use crate::bytes::{bytes_eq, copy_bytes};
use crate::catalog::{
    icon_spec, lemma_visible_positions_bound, usize_seq, visible_positions, DesktopEntries,
    DesktopEntry, ExecAction, Icon, IconType,
};
use crate::config::TextStyle;
use crate::geometry::Point;
use crate::index::IconEntryModel;
use crate::grid::{origin_spec, scale_px, scaled, Grid, ICON_SIZE};

verus! {

/// What a visual is cached under: the icon's identity and the label.
pub struct CacheKey {
    pub icon: Icon,
    pub name: Vec<u8>,
}

pub type KeyModel = ((int, Seq<u8>, IconType), Seq<u8>);

impl CacheKey {
    pub open spec fn key(&self) -> KeyModel {
        (self.icon.key(), self.name@)
    }
}

/// Whether slot `i` of `s` holds key `k`.
pub open spec fn has_key_at<V>(s: Seq<(KeyModel, V)>, k: KeyModel, i: int) -> bool {
    0 <= i < s.len() && s[i].0 == k
}

pub open spec fn keys_unique<V>(s: Seq<(KeyModel, V)>) -> bool {
    forall|i: int, j: int| 0 <= i < j < s.len() ==> s[i].0 != s[j].0
}

/// The value cached under `k`.
pub open spec fn lookup<V>(s: Seq<(KeyModel, V)>, k: KeyModel) -> Option<V> {
    if exists|i: int| has_key_at(s, k, i) {
        Some(s[choose|i: int| has_key_at(s, k, i)].1)
    } else {
        None
    }
}

/// The slots after caching `v` under `k`: its old slot, or a new one.
pub open spec fn insert_spec<V>(s: Seq<(KeyModel, V)>, k: KeyModel, v: V) -> Seq<(KeyModel, V)> {
    if exists|i: int| has_key_at(s, k, i) {
        s.update(choose|i: int| has_key_at(s, k, i), (k, v))
    } else {
        s.push((k, v))
    }
}

/// Label of an entry: the configuration entry shows none unless configuring.
pub open spec fn label_spec(e: DesktopEntry, configuring: bool) -> Seq<u8> {
    if e.action is Config && !configuring {
        Seq::empty()
    } else {
        e.name@
    }
}

/// Grid positions of the entries that are laid out: all while configuring,
/// else the visible ones.
pub open spec fn laid_out(s: Seq<DesktopEntry>, configuring: bool) -> Seq<int> {
    if configuring {
        Seq::new(s.len(), |i: int| i)
    } else {
        visible_positions(s)
    }
}

/// Whether the cell at grid index `k`, moved by `offset`, overlaps the viewport.
pub open spec fn in_window(g: Grid, offset: int, k: int) -> bool {
    let y = origin_spec(g, k).1 + offset;
    -(g.entry_size.height as int) <= y && y < g.size.height as int
}

/// Entry position and grid index of every laid-out entry in the viewport.
pub open spec fn planned(g: Grid, offset: int, laid: Seq<int>) -> Seq<(int, int)>
    decreases laid.len(),
{
    if laid.len() == 0 {
        Seq::empty()
    } else {
        let a = planned(g, offset, laid.drop_last());
        if in_window(g, offset, laid.len() - 1) {
            a.push((laid.last(), laid.len() - 1))
        } else {
            a
        }
    }
}

/// One entry to draw in a frame.
pub struct RenderItem {
    /// Position among all entries.
    pub index: usize,
    /// Position in the grid: among the laid-out entries.
    pub grid_index: usize,
    /// Top-left corner of its cell in the viewport.
    pub origin: Point<i64>,
    pub icon: Icon,
    pub name: Vec<u8>,
    /// Slot of its cached visual, if there is one.
    pub cached: Option<usize>,
}

/// `it` draws entry `p.0` in grid cell `p.1`, with the icon and label that
/// entry gets, and the cache slot of that icon and label if there is one.
pub open spec fn item_matches<V>(
    it: RenderItem,
    p: (int, int),
    entries: Seq<DesktopEntry>,
    icons: Map<Seq<u8>, IconEntryModel>,
    slots: Seq<(KeyModel, V)>,
    g: Grid,
    offset: int,
    configuring: bool,
) -> bool {
    &&& it.index == p.0
    &&& it.grid_index == p.1
    &&& 0 <= p.0 < entries.len()
    &&& it.origin.x == origin_spec(g, p.1).0
    &&& it.origin.y == origin_spec(g, p.1).1 + offset
    &&& icon_spec(it.icon, entries[p.0], icons, scaled(ICON_SIZE as int, g.scale120 as int) as u32)
    &&& it.name@ == label_spec(entries[p.0], configuring)
    &&& match it.cached {
        Some(i) => has_key_at(slots, (it.icon.key(), it.name@), i as int) && lookup(
            slots,
            (it.icon.key(), it.name@),
        ) == Some(slots[i as int].1),
        None => !exists|i: int| has_key_at(slots, (it.icon.key(), it.name@), i),
    }
}

/// Visuals of entries by icon and label, valid for one text style and scale.
pub struct RenderCache<V> {
    slots: Vec<(CacheKey, V)>,
    style: TextStyle,
    scale120: u32,
}

/// Whether two styles draw alike.
pub open spec fn same_style(a: TextStyle, b: TextStyle) -> bool {
    a.family@ == b.family@ && a.size == b.size && a.foreground == b.foreground && a.background == b.background
}

impl<V> RenderCache<V> {
    /// Keys and values of the cache slots.
    pub closed spec fn slots(&self) -> Seq<(KeyModel, V)> {
        Seq::new(self.slots@.len(), |i: int| (self.slots@[i].0.key(), self.slots@[i].1))
    }

    pub closed spec fn style(&self) -> TextStyle {
        self.style
    }

    pub closed spec fn scale(&self) -> u32 {
        self.scale120
    }

    /// No two slots hold the same key.
    pub open spec fn wf(&self) -> bool {
        keys_unique(self.slots())
    }

    /// An empty cache for `style` at a scale given in 120ths.
    pub fn new(style: TextStyle, scale120: u32) -> (r: Self)
        ensures
            r.wf(),
            r.slots().len() == 0,
            r.style() == style,
            r.scale() == scale120,
    {
        let r = RenderCache { slots: Vec::new(), style, scale120 };
        assert(r.slots() =~= Seq::<(KeyModel, V)>::empty());
        r
    }

    /// Number of cached visuals.
    pub fn len(&self) -> (r: usize)
        ensures
            r == self.slots().len(),
    {
        self.slots.len()
    }

    /// Slot of the visual cached under `key`.
    pub fn find(&self, key: &CacheKey) -> (r: Option<usize>)
        ensures
            match r {
                Some(i) => has_key_at(self.slots(), key.key(), i as int),
                None => !exists|i: int| has_key_at(self.slots(), key.key(), i),
            },
    {
        let mut i: usize = 0;
        while i < self.slots.len()
            invariant
                i <= self.slots@.len(),
                forall|j: int| 0 <= j < i ==> !has_key_at(self.slots(), key.key(), j),
            decreases self.slots@.len() - i,
        {
            if self.slots[i].0.icon == key.icon && bytes_eq(self.slots[i].0.name.as_slice(), key.name.as_slice()) {
                assert(self.slots()[i as int].0 == key.key());
                return Some(i);
            }
            assert(self.slots()[i as int].0 != key.key());
            i = i + 1;
        }
        None
    }

    /// The visual cached under `key`.
    pub fn get(&self, key: &CacheKey) -> (r: Option<&V>)
        requires
            self.wf(),
        ensures
            match r {
                Some(v) => lookup(self.slots(), key.key()) == Some(*v),
                None => lookup(self.slots(), key.key()).is_none(),
            },
    {
        match self.find(key) {
            Some(i) => {
                proof {
                    let c = choose|j: int| has_key_at(self.slots(), key.key(), j);
                    assert(c == i);
                }
                Some(&self.slots[i].1)
            },
            None => None,
        }
    }

    /// The visual in slot `i`.
    pub fn slot(&self, i: usize) -> (r: &V)
        requires
            i < self.slots().len(),
        ensures
            *r == self.slots()[i as int].1,
    {
        &self.slots[i].1
    }

    /// Cache `value` under `key`.
    pub fn insert(&mut self, key: CacheKey, value: V)
        requires
            old(self).wf(),
        ensures
            final(self).wf(),
            final(self).slots() == insert_spec(old(self).slots(), key.key(), value),
            final(self).style() == old(self).style(),
            final(self).scale() == old(self).scale(),
    {
        let ghost s = self.slots();
        let ghost k = key.key();
        proof {
            lemma_cache_hit_after_insert(s, k, value);
        }
        match self.find(&key) {
            Some(i) => {
                proof {
                    let c = choose|j: int| has_key_at(s, k, j);
                    assert(c == i);
                }
                let ghost before = self.slots@;
                let _old = self.slots.remove(i);
                self.slots.insert(i, (key, value));
                assert(self.slots@ =~= before.update(i as int, (key, value)));
                assert(self.slots() =~= s.update(i as int, (k, value)));
            },
            None => {
                self.slots.push((key, value));
                assert(self.slots() =~= s.push((k, value)));
            },
        }
    }

    /// Drop every cached visual.
    pub fn clear(&mut self)
        ensures
            final(self).wf(),
            final(self).slots().len() == 0,
            final(self).style() == old(self).style(),
            final(self).scale() == old(self).scale(),
    {
        self.slots.clear();
    }

    /// Switch to the label style `style`. Any change of font family, size or
    /// colours drops the whole cache; returns whether there was one.
    pub fn update_style(&mut self, style: TextStyle) -> (r: bool)
        requires
            old(self).wf(),
        ensures
            final(self).wf(),
            r == !same_style(old(self).style(), style),
            r ==> final(self).slots().len() == 0 && same_style(final(self).style(), style),
            !r ==> final(self).slots() == old(self).slots(),
            final(self).scale() == old(self).scale(),
    {
        let same = bytes_eq(self.style.family.as_slice(), style.family.as_slice()) && self.style.size == style.size
            && self.style.foreground == style.foreground && self.style.background == style.background;
        if same {
            return false;
        }
        self.style = style;
        self.slots.clear();
        true
    }

    /// Switch to a new scale factor, in 120ths; a change drops the whole
    /// cache. Returns whether it changed.
    pub fn set_scale_factor(&mut self, scale120: u32) -> (r: bool)
        requires
            old(self).wf(),
        ensures
            final(self).wf(),
            final(self).scale() == scale120,
            r == (old(self).scale() != scale120),
            r ==> final(self).slots().len() == 0,
            !r ==> final(self).slots() == old(self).slots(),
            final(self).style() == old(self).style(),
    {
        if self.scale120 == scale120 {
            return false;
        }
        self.scale120 = scale120;
        self.slots.clear();
        true
    }
}

impl<V> RenderCache<V> {
    /// The entries a frame at `scroll_offset` draws: every laid-out entry
    /// (all while configuring, else the visible ones) whose cell overlaps the
    /// viewport, in grid order, with its icon, label and cached visual.
    /// Entries out of view are neither drawn nor looked up.
    pub fn render_entries(
        &self,
        entries: &DesktopEntries,
        scroll_offset: i64,
        grid: &Grid,
        configuring: bool,
    ) -> (r: Vec<RenderItem>)
        requires
            self.wf(),
            entries.wf(),
            grid.wf(),
            entries@.len() <= u32::MAX,
        ensures
            r@.len() == planned(*grid, scroll_offset as int, laid_out(entries@, configuring)).len(),
            forall|m: int| 0 <= m < r@.len() ==> item_matches(
                #[trigger] r@[m],
                planned(*grid, scroll_offset as int, laid_out(entries@, configuring))[m],
                entries@,
                entries.icons(),
                self.slots(),
                *grid,
                scroll_offset as int,
                configuring,
            ),
    {
        let laid: Vec<usize> = if configuring {
            let mut all: Vec<usize> = Vec::new();
            let mut i: usize = 0;
            while i < entries.all_len()
                invariant
                    i <= entries@.len(),
                    all@.len() == i,
                    forall|x: int| 0 <= x < i ==> all@[x] as int == x,
                decreases entries@.len() - i,
            {
                all.push(i);
                i = i + 1;
            }
            assert(usize_seq(all@) =~= Seq::new(entries@.len(), |x: int| x));
            all
        } else {
            entries.visible()
        };
        let ghost lo = laid_out(entries@, configuring);
        assert(usize_seq(laid@) == lo);
        proof {
            lemma_visible_positions_bound(entries@);
        }
        let icon_size = scale_px(ICON_SIZE, grid.scale120);
        let eh = grid.entry_size.height as i128;
        let h = grid.size.height as i128;
        let mut out: Vec<RenderItem> = Vec::new();
        let mut k: usize = 0;
        while k < laid.len()
            invariant
                self.wf(),
                k <= laid@.len(),
                usize_seq(laid@) == lo,
                lo == laid_out(entries@, configuring),
                forall|x: int| 0 <= x < lo.len() ==> 0 <= #[trigger] lo[x] < entries@.len(),
                lo.len() <= entries@.len(),
                entries.wf(),
                grid.wf(),
                entries@.len() <= u32::MAX,
                icon_size as int == scaled(ICON_SIZE as int, grid.scale120 as int),
                eh == grid.entry_size.height,
                h == grid.size.height,
                out@.len() == planned(*grid, scroll_offset as int, lo.subrange(0, k as int)).len(),
                forall|m: int| 0 <= m < out@.len() ==> item_matches(
                    #[trigger] out@[m],
                    planned(*grid, scroll_offset as int, lo.subrange(0, k as int))[m],
                    entries@,
                    entries.icons(),
                    self.slots(),
                    *grid,
                    scroll_offset as int,
                    configuring,
                ),
            decreases laid@.len() - k,
        {
            let ghost pre = lo.subrange(0, k + 1);
            assert(pre.drop_last() == lo.subrange(0, k as int));
            assert(pre.last() == lo[k as int]);
            assert(lo[k as int] == laid@[k as int] as int);
            let j = laid[k];
            let o = grid.origin(k);
            let y: i128 = o.y as i128 + scroll_offset as i128;
            if y >= -eh && y < h {
                let entry = &entries.all()[j];
                let name = match entry.action {
                    ExecAction::Config => if configuring {
                        copy_bytes(&entry.name)
                    } else {
                        Vec::new()
                    },
                    _ => copy_bytes(&entry.name),
                };
                let icon = entries.icon(entry, icon_size);
                let key = CacheKey { icon, name };
                let cached = self.find(&key);
                let ghost km = key.key();
                let CacheKey { icon, name } = key;
                assert(km == (icon.key(), name@));
                proof {
                    if cached.is_some() {
                        let c = choose|c: int| has_key_at(self.slots(), km, c);
                        assert(c == cached.unwrap() as int);
                    }
                }
                let item = RenderItem { index: j, grid_index: k, origin: Point::new(o.x as i64, y as i64), icon, name, cached };
                let ghost before = out@;
                proof {
                    assert(pre.len() - 1 == k);
                    assert(in_window(*grid, scroll_offset as int, k as int));
                    assert(planned(*grid, scroll_offset as int, pre) == planned(
                        *grid,
                        scroll_offset as int,
                        lo.subrange(0, k as int),
                    ).push((lo[k as int], k as int)));
                    assert(item.index == lo[k as int]);
                    assert(0 <= lo[k as int] < entries@.len());
                    assert(item.origin.x == origin_spec(*grid, k as int).0);
                    assert(item.origin.y == origin_spec(*grid, k as int).1 + scroll_offset);
                    assert(icon_spec(item.icon, entries@[lo[k as int]], entries.icons(), scaled(ICON_SIZE as int, grid.scale120 as int) as u32));
                    assert(item.name@ == label_spec(entries@[lo[k as int]], configuring));
                    assert(item_matches(
                        item,
                        (lo[k as int], k as int),
                        entries@,
                        entries.icons(),
                        self.slots(),
                        *grid,
                        scroll_offset as int,
                        configuring,
                    ));
                }
                out.push(item);
                assert forall|m: int| 0 <= m < out@.len() implies item_matches(
                    #[trigger] out@[m],
                    planned(*grid, scroll_offset as int, pre)[m],
                    entries@,
                    entries.icons(),
                    self.slots(),
                    *grid,
                    scroll_offset as int,
                    configuring,
                ) by {
                    if m < before.len() {
                        assert(out@[m] == before[m]);
                    }
                }
            }
            k = k + 1;
        }
        assert(lo.subrange(0, k as int) == lo);
        out
    }
}

/// Caching a visual and looking it up again, with no change of style or
/// scale between, finds that visual.
pub proof fn lemma_cache_hit_after_insert<V>(s: Seq<(KeyModel, V)>, k: KeyModel, v: V)
    requires
        keys_unique(s),
    ensures
        keys_unique(insert_spec(s, k, v)),
        lookup(insert_spec(s, k, v), k) == Some(v),
{
    let s2 = insert_spec(s, k, v);
    if exists|i: int| has_key_at(s, k, i) {
        let c = choose|i: int| has_key_at(s, k, i);
        assert(has_key_at(s2, k, c));
        assert forall|i: int, j: int| 0 <= i < j < s2.len() implies s2[i].0 != s2[j].0 by {
            if i != c && j != c {
                assert(s[i].0 != s[j].0);
            } else if i == c {
                assert(s[c].0 != s[j].0);
            } else {
                assert(s[i].0 != s[c].0);
            }
        }
        let d = choose|i: int| has_key_at(s2, k, i);
        if d != c {
            if d < c {
                assert(s2[d].0 != s2[c].0);
            } else {
                assert(s2[c].0 != s2[d].0);
            }
        }
    } else {
        let n = s.len() as int;
        assert(has_key_at(s2, k, n));
        assert forall|i: int, j: int| 0 <= i < j < s2.len() implies s2[i].0 != s2[j].0 by {
            if j == n {
                assert(!has_key_at(s, k, i));
            } else {
                assert(s[i].0 != s[j].0);
            }
        }
        let d = choose|i: int| has_key_at(s2, k, i);
        if d != n {
            assert(s2[d].0 != s2[n].0);
        }
    }
}

} // verus!
