use vstd::prelude::*;
use crate::packer::{Packer, disjoint, inside, placement};

verus! {

/// Side of the atlas surface when it is made.
pub const INITIAL_SIZE: u32 = 256;

/// How many glyphs the lookup holds before it forgets the least recently used.
pub const GLYPH_CACHE_CAPACITY: usize = 1000;

/// The largest side the surface grows to.
pub const MAX_ATLAS_SIZE: u32 = 8192;

/// Where a glyph lies in the atlas surface, in pixels.
#[derive(Clone, Copy, Debug, PartialEq, Eq, Structural)]
pub struct GlyphDetails {
    pub x: u32,
    pub y: u32,
    pub width: u32,
    pub height: u32,
}

/// Why a glyph could not be placed.
#[derive(Clone, Copy, Debug, PartialEq, Eq, Structural)]
pub enum AtlasError {
    /// The glyph is wider or taller than the largest surface.
    GlyphTooLarge,
    /// The surface reached its largest side and still has no room.
    AtlasFull,
    /// After the surface grew, the glyphs it held did not all fit again.
    RepackFailed,
}

#[verifier::external_type_specification]
#[verifier::external_body]
#[verifier::reject_recursive_types(K)]
#[verifier::reject_recursive_types(V)]
#[verifier::reject_recursive_types(S)]
pub struct ExLruCache<K, V, S>(lru::LruCache<K, V, S>);

#[verifier::external_type_specification]
#[verifier::external_body]
pub struct ExLruHasher(lru::DefaultHasher);

/// A rectangle as `(x, y, width, height)`.
pub open spec fn rect_of(d: GlyphDetails) -> (int, int, int, int) {
    (d.x as int, d.y as int, d.width as int, d.height as int)
}

/// What a glyph cache holds, from the least to the most recently used entry.
pub uninterp spec fn lru_entries(c: lru::LruCache<(char, u32), GlyphDetails>) -> Seq<
    ((char, u32), GlyphDetails),
>;

/// The number of entries a glyph cache was made to hold.
pub uninterp spec fn lru_capacity(c: lru::LruCache<(char, u32), GlyphDetails>) -> int;

pub open spec fn key_at(s: Seq<((char, u32), GlyphDetails)>, k: (char, u32), i: int) -> bool {
    0 <= i < s.len() && s[i].0 == k
}

pub open spec fn has_key(s: Seq<((char, u32), GlyphDetails)>, k: (char, u32)) -> bool {
    exists|i: int| key_at(s, k, i)
}

pub open spec fn keys_unique(s: Seq<((char, u32), GlyphDetails)>) -> bool {
    forall|i: int, j: int| 0 <= i < j < s.len() ==> s[i].0 != s[j].0
}

/// The entries after a new key is put in a cache that holds at most `cap`: where it is full,
/// the least recently used entry leaves.
pub open spec fn lru_insert(
    s: Seq<((char, u32), GlyphDetails)>,
    cap: int,
    k: (char, u32),
    v: GlyphDetails,
) -> Seq<((char, u32), GlyphDetails)> {
    if s.len() < cap {
        s.push((k, v))
    } else {
        s.subrange(1, s.len() as int).push((k, v))
    }
}

/// The same keys in the same order, with glyphs of the same sizes; positions may differ.
pub open spec fn same_glyphs(
    a: Seq<((char, u32), GlyphDetails)>,
    b: Seq<((char, u32), GlyphDetails)>,
) -> bool {
    &&& a.len() == b.len()
    &&& forall|i: int|
        0 <= i < a.len() ==> #[trigger] a[i].0 == b[i].0 && a[i].1.width == b[i].1.width
            && a[i].1.height == b[i].1.height
}

/// Relies on lru::LruCache::new: an empty cache holding at most `cap` entries.
#[verifier::external_body]
fn new_cache(cap: usize) -> (c: lru::LruCache<(char, u32), GlyphDetails>)
    requires
        cap > 0,
    ensures
        lru_entries(c) == Seq::<((char, u32), GlyphDetails)>::empty(),
        lru_capacity(c) == cap,
{
    lru::LruCache::new(std::num::NonZeroUsize::new(cap).unwrap())
}

/// Relies on lru::LruCache::get: the value of `key`, which becomes the most recently used
/// entry; `None` where the key is absent, the cache unchanged.
#[verifier::external_body]
fn cache_get(c: &mut lru::LruCache<(char, u32), GlyphDetails>, key: (char, u32)) -> (r: Option<
    GlyphDetails,
>)
    ensures
        lru_capacity(*final(c)) == lru_capacity(*old(c)),
        r is None <==> !has_key(lru_entries(*old(c)), key),
        r is None ==> lru_entries(*final(c)) == lru_entries(*old(c)),
        forall|i: int|
            key_at(lru_entries(*old(c)), key, i) ==> r == Some(lru_entries(*old(c))[i].1)
                && lru_entries(*final(c)) == lru_entries(*old(c)).remove(i).push(
                lru_entries(*old(c))[i],
            ),
{
    c.get(&key).copied()
}

/// Relies on lru::LruCache::put: the entry becomes the most recently used; a present key gets
/// the new value; a new key in a full cache takes the place of the least recently used entry.
#[verifier::external_body]
fn cache_put(c: &mut lru::LruCache<(char, u32), GlyphDetails>, key: (char, u32), value: GlyphDetails)
    ensures
        lru_capacity(*final(c)) == lru_capacity(*old(c)),
        !has_key(lru_entries(*old(c)), key) ==> lru_entries(*final(c)) == lru_insert(
            lru_entries(*old(c)),
            lru_capacity(*old(c)),
            key,
            value,
        ),
        forall|i: int|
            key_at(lru_entries(*old(c)), key, i) ==> lru_entries(*final(c)) == lru_entries(
                *old(c),
            ).remove(i).push((key, value)),
{
    c.put(key, value);
}

/// Relies on lru::LruCache::iter: every entry, from the most to the least recently used; they
/// are taken in reverse.
#[verifier::external_body]
fn cache_entries(c: &lru::LruCache<(char, u32), GlyphDetails>) -> (r: Vec<((char, u32), GlyphDetails)>)
    ensures
        r@ == lru_entries(*c),
{
    c.iter().rev().map(|(k, v)| (*k, *v)).collect()
}

/// The sizes of the glyphs, as `(width, height)`, in order.
pub open spec fn sizes_of(entries: Seq<((char, u32), GlyphDetails)>) -> Seq<(u32, u32)> {
    entries.map_values(|e: ((char, u32), GlyphDetails)| (e.1.width, e.1.height))
}

/// Where the glyphs land, as `(x, y)`, when placed one after another, in order, into a fresh
/// packer of side `side`; `None` where one of them finds no room.
pub open spec fn repack(side: u32, entries: Seq<((char, u32), GlyphDetails)>) -> Option<
    Seq<(u32, u32)>,
>
    decreases entries.len(),
{
    if entries.len() == 0 {
        Some(Seq::empty())
    } else {
        match repack(side, entries.drop_last()) {
            None => None,
            Some(ps) => match placement(
                side,
                sizes_of(entries.drop_last()),
                entries.last().1.width,
                entries.last().1.height,
            ) {
                None => None,
                Some(p) => Some(ps.push(p)),
            },
        }
    }
}

/// The glyphs, each moved to the matching position.
pub open spec fn moved_to(
    entries: Seq<((char, u32), GlyphDetails)>,
    positions: Seq<(u32, u32)>,
) -> Seq<((char, u32), GlyphDetails)> {
    Seq::new(
        entries.len(),
        |i: int|
            (
                entries[i].0,
                GlyphDetails {
                    x: positions[i].0,
                    y: positions[i].1,
                    width: entries[i].1.width,
                    height: entries[i].1.height,
                },
            ),
    )
}

/// The rectangles of the glyphs.
pub open spec fn rects_of(entries: Seq<((char, u32), GlyphDetails)>) -> Set<(int, int, int, int)> {
    Set::new(
        |q: (int, int, int, int)| exists|i: int| 0 <= i < entries.len() && q == rect_of(entries[i].1),
    )
}

proof fn lemma_repack_len(side: u32, entries: Seq<((char, u32), GlyphDetails)>)
    ensures
        repack(side, entries) matches Some(ps) ==> ps.len() == entries.len(),
    decreases entries.len(),
{
    if entries.len() > 0 {
        lemma_repack_len(side, entries.drop_last());
    }
}

/// Once a prefix of the glyphs finds no room, neither do all of them.
proof fn lemma_repack_prefix_none(side: u32, entries: Seq<((char, u32), GlyphDetails)>, n: int)
    requires
        0 <= n <= entries.len(),
        repack(side, entries.subrange(0, n)) is None,
    ensures
        repack(side, entries) is None,
    decreases entries.len(),
{
    if n == entries.len() {
        assert(entries.subrange(0, n) =~= entries);
    } else {
        assert(entries.drop_last().subrange(0, n) =~= entries.subrange(0, n));
        lemma_repack_prefix_none(side, entries.drop_last(), n);
    }
}

/// What an atlas holds: the side of its surface, the glyph lookup from least to most recently
/// used, and every rectangle its packer has handed out, glyphs since forgotten included.
pub struct AtlasModel {
    pub size: int,
    pub capacity: int,
    pub entries: Seq<((char, u32), GlyphDetails)>,
    pub packed: Set<(int, int, int, int)>,
    /// Every size the packer was asked for since the surface last got its side.
    pub asked: Seq<(u32, u32)>,
}

impl AtlasModel {
    pub open spec fn wf(self) -> bool {
        &&& 0 < self.size <= MAX_ATLAS_SIZE
        &&& 0 < self.capacity
        &&& self.entries.len() <= self.capacity
        &&& keys_unique(self.entries)
        &&& forall|q: (int, int, int, int)| #[trigger] self.packed.contains(q) ==> inside(q, self.size)
        &&& forall|q1: (int, int, int, int), q2: (int, int, int, int)|
            #[trigger] self.packed.contains(q1) && #[trigger] self.packed.contains(q2) && q1 != q2
                ==> disjoint(q1, q2)
        &&& forall|i: int|
            0 <= i < self.entries.len() ==> self.packed.contains(#[trigger] rect_of(self.entries[i].1))
        &&& forall|i: int, j: int|
            0 <= i < j < self.entries.len() ==> rect_of(#[trigger] self.entries[i].1) != rect_of(
                #[trigger] self.entries[j].1,
            )
    }

    /// What `get_or_create_glyph` promises for `key`, given a rasterization of
    /// `width` by `height` pixels, from `self` to `after` with result `r`.
    pub open spec fn glyph_post(
        self,
        key: (char, u32),
        width: u32,
        height: u32,
        r: Result<Option<GlyphDetails>, AtlasError>,
        after: AtlasModel,
    ) -> bool {
        &&& after.wf()
        &&& after.capacity == self.capacity
        &&& after.size >= self.size
        &&& has_key(self.entries, key) ==> forall|i: int|
            key_at(self.entries, key, i) ==> r == Ok::<Option<GlyphDetails>, AtlasError>(
                Some(self.entries[i].1),
            ) && after.entries == self.entries.remove(i).push(self.entries[i]) && after.size
                == self.size && after.packed == self.packed && after.asked == self.asked
        &&& !has_key(self.entries, key) ==> if width == 0 || height == 0 {
            r == Ok::<Option<GlyphDetails>, AtlasError>(None) && after == self
        } else if width > MAX_ATLAS_SIZE || height > MAX_ATLAS_SIZE {
            r == Err::<Option<GlyphDetails>, AtlasError>(AtlasError::GlyphTooLarge) && after == self
        } else {
            &&& placement(self.size as u32, self.asked, width, height) matches Some(pos) ==> r == Ok::<
                Option<GlyphDetails>,
                AtlasError,
            >(Some(GlyphDetails { x: pos.0, y: pos.1, width, height })) && after.size == self.size
            &&& match r {
                Ok(Some(d)) => {
                    &&& d.width == width && d.height == height
                    &&& after.entries.len() > 0 && after.entries.last() == (key, d)
                    &&& same_glyphs(after.entries, lru_insert(self.entries, self.capacity, key, d))
                    &&& after.size == self.size ==> after.entries == lru_insert(
                        self.entries,
                        self.capacity,
                        key,
                        d,
                    ) && after.packed == self.packed.insert(rect_of(d)) && after.asked
                        == self.asked.push((width, height))
                },
                Ok(None) => false,
                Err(e) => {
                    &&& e != AtlasError::GlyphTooLarge
                    &&& same_glyphs(after.entries, self.entries)
                    &&& e == AtlasError::AtlasFull ==> after.size > MAX_ATLAS_SIZE / 2
                    &&& e == AtlasError::RepackFailed ==> after.size <= MAX_ATLAS_SIZE / 2 && repack(
                        (2 * after.size) as u32,
                        after.entries,
                    ) is None
                },
            }
        }
    }
}

proof fn lemma_same_glyphs_trans(
    a: Seq<((char, u32), GlyphDetails)>,
    b: Seq<((char, u32), GlyphDetails)>,
    c: Seq<((char, u32), GlyphDetails)>,
)
    requires
        same_glyphs(a, b),
        same_glyphs(b, c),
    ensures
        same_glyphs(a, c),
        same_glyphs(c, a),
{
    assert forall|i: int| 0 <= i < c.len() implies #[trigger] c[i].0 == a[i].0 && c[i].1.width
        == a[i].1.width && c[i].1.height == a[i].1.height by {
        assert(a[i].0 == b[i].0);
        assert(b[i].0 == c[i].0);
    }
    assert forall|i: int| 0 <= i < a.len() implies #[trigger] a[i].0 == c[i].0 && a[i].1.width
        == c[i].1.width && a[i].1.height == c[i].1.height by {
        assert(a[i].0 == b[i].0);
        assert(b[i].0 == c[i].0);
    }
}

proof fn lemma_same_glyphs_keys(
    a: Seq<((char, u32), GlyphDetails)>,
    b: Seq<((char, u32), GlyphDetails)>,
    key: (char, u32),
)
    requires
        same_glyphs(a, b),
    ensures
        has_key(a, key) == has_key(b, key),
        keys_unique(a) == keys_unique(b),
{
    if has_key(a, key) {
        let i = choose|i: int| key_at(a, key, i);
        assert(a[i].0 == b[i].0);
        assert(key_at(b, key, i));
    }
    if has_key(b, key) {
        let i = choose|i: int| key_at(b, key, i);
        assert(a[i].0 == b[i].0);
        assert(key_at(a, key, i));
    }
    if keys_unique(a) {
        assert forall|i: int, j: int| 0 <= i < j < b.len() implies b[i].0 != b[j].0 by {
            assert(a[i].0 == b[i].0);
            assert(a[j].0 == b[j].0);
        }
    }
    if keys_unique(b) {
        assert forall|i: int, j: int| 0 <= i < j < a.len() implies a[i].0 != a[j].0 by {
            assert(a[i].0 == b[i].0);
            assert(a[j].0 == b[j].0);
        }
    }
}

proof fn lemma_same_glyphs_insert(
    a: Seq<((char, u32), GlyphDetails)>,
    b: Seq<((char, u32), GlyphDetails)>,
    cap: int,
    key: (char, u32),
    d: GlyphDetails,
)
    requires
        same_glyphs(a, b),
        0 < cap,
    ensures
        same_glyphs(lru_insert(a, cap, key, d), lru_insert(b, cap, key, d)),
{
    let x = lru_insert(a, cap, key, d);
    let y = lru_insert(b, cap, key, d);
    assert forall|i: int| 0 <= i < x.len() implies #[trigger] x[i].0 == y[i].0 && x[i].1.width
        == y[i].1.width && x[i].1.height == y[i].1.height by {
        if a.len() < cap {
            if i < a.len() {
                assert(x[i] == a[i] && y[i] == b[i]);
            }
        } else {
            if i < a.len() - 1 {
                assert(x[i] == a[i + 1] && y[i] == b[i + 1]);
            }
        }
    }
}

/// The most recently used entry moved to the end keeps the atlas well formed.
proof fn lemma_touch_wf(m: AtlasModel, i: int)
    requires
        m.wf(),
        0 <= i < m.entries.len(),
    ensures
        (AtlasModel { entries: m.entries.remove(i).push(m.entries[i]), ..m }).wf(),
{
    let e = m.entries;
    let t = e.remove(i).push(e[i]);
    let idx = |k: int| if k == e.len() - 1 { i } else if k < i { k } else { k + 1 };
    assert forall|k: int| 0 <= k < t.len() implies #[trigger] t[k] == e[idx(k)] by {}
    assert forall|a: int, b: int| 0 <= a < b < t.len() implies t[a].0 != t[b].0 && rect_of(t[a].1)
        != rect_of(t[b].1) by {
        assert(t[a] == e[idx(a)]);
        assert(t[b] == e[idx(b)]);
        if idx(a) < idx(b) {
            assert(rect_of(e[idx(a)].1) != rect_of(e[idx(b)].1));
        } else {
            assert(rect_of(e[idx(b)].1) != rect_of(e[idx(a)].1));
        }
    }
    assert forall|k: int| 0 <= k < t.len() implies m.packed.contains(#[trigger] rect_of(t[k].1)) by {
        assert(t[k] == e[idx(k)]);
    }
}

/// A new glyph at a rectangle that overlaps nothing handed out keeps the atlas well formed.
proof fn lemma_insert_wf(m: AtlasModel, key: (char, u32), d: GlyphDetails)
    requires
        m.wf(),
        !has_key(m.entries, key),
        inside(rect_of(d), m.size),
        forall|q: (int, int, int, int)| #[trigger] m.packed.contains(q) ==> disjoint(q, rect_of(d)),
    ensures
        (AtlasModel {
            entries: lru_insert(m.entries, m.capacity, key, d),
            packed: m.packed.insert(rect_of(d)),
            ..m
        }).wf(),
{
    let e = m.entries;
    let t = lru_insert(e, m.capacity, key, d);
    let r = rect_of(d);
    let p = m.packed.insert(r);
    let full = !(e.len() < m.capacity);
    let idx = |k: int| if full { k + 1 } else { k };
    assert(!m.packed.contains(r)) by {
        if m.packed.contains(r) {
            assert(disjoint(r, r));
        }
    }
    assert forall|k: int| 0 <= k < t.len() - 1 implies #[trigger] t[k] == e[idx(k)] by {}
    assert(t[t.len() - 1] == (key, d));
    assert forall|a: int, b: int| 0 <= a < b < t.len() implies t[a].0 != t[b].0 && rect_of(t[a].1)
        != rect_of(t[b].1) by {
        assert(t[a] == e[idx(a)]);
        assert(m.packed.contains(rect_of(e[idx(a)].1)));
        if b == t.len() - 1 {
            assert(!key_at(e, key, idx(a)));
        } else {
            assert(t[b] == e[idx(b)]);
        }
    }
    assert forall|k: int| 0 <= k < t.len() implies p.contains(#[trigger] rect_of(t[k].1)) by {
        if k < t.len() - 1 {
            assert(t[k] == e[idx(k)]);
        }
    }
    assert forall|q: (int, int, int, int)| #[trigger] p.contains(q) implies inside(q, m.size) by {
        if q != r {
            assert(m.packed.contains(q));
        }
    }
    assert forall|q1: (int, int, int, int), q2: (int, int, int, int)|
        #[trigger] p.contains(q1) && #[trigger] p.contains(q2) && q1 != q2 implies disjoint(q1, q2) by {
        if q1 == r {
            assert(m.packed.contains(q2));
        } else if q2 == r {
            assert(m.packed.contains(q1));
        } else {
            assert(m.packed.contains(q1));
            assert(m.packed.contains(q2));
        }
    }
}

/// The glyph cache and the packer behind the atlas surface. Rasterizing and uploading pixels
/// is left to the caller: it hands in each glyph's size, and after a growth re-rasterizes and
/// uploads every glyph that `glyphs` lists.
pub struct InnerAtlas {
    packer: Packer,
    size: u32,
    glyph_cache: lru::LruCache<(char, u32), GlyphDetails>,
    capacity: usize,
}

impl View for InnerAtlas {
    type V = AtlasModel;

    closed spec fn view(&self) -> AtlasModel {
        AtlasModel {
            size: self.size as int,
            capacity: self.capacity as int,
            entries: lru_entries(self.glyph_cache),
            packed: self.packer.handed_out(),
            asked: self.packer.asked(),
        }
    }
}

impl InnerAtlas {
    /// The model holds, and the packer and the cache were made for this surface and capacity.
    pub closed spec fn wf(&self) -> bool {
        &&& self@.wf()
        &&& self.packer.side() == self.size
        &&& lru_capacity(self.glyph_cache) == self.capacity
    }

    /// An empty atlas with a surface of side `INITIAL_SIZE`.
    pub fn new() -> (a: InnerAtlas)
        ensures
            a.wf(),
            a@.size == INITIAL_SIZE,
            a@.wf(),
            a@.capacity == GLYPH_CACHE_CAPACITY,
            a@.entries == Seq::<((char, u32), GlyphDetails)>::empty(),
            a@.packed == Set::<(int, int, int, int)>::empty(),
            a@.asked == Seq::<(u32, u32)>::empty(),
    {
        InnerAtlas::with_limits(INITIAL_SIZE, GLYPH_CACHE_CAPACITY)
    }

    /// An empty atlas with a surface of side `initial_size`, remembering at most `capacity`
    /// glyphs.
    pub fn with_limits(initial_size: u32, capacity: usize) -> (a: InnerAtlas)
        requires
            0 < initial_size <= MAX_ATLAS_SIZE,
            capacity > 0,
        ensures
            a.wf(),
            a@.size == initial_size,
            a@.capacity == capacity,
            a@.wf(),
            a@.entries == Seq::<((char, u32), GlyphDetails)>::empty(),
            a@.packed == Set::<(int, int, int, int)>::empty(),
            a@.asked == Seq::<(u32, u32)>::empty(),
    {
        InnerAtlas {
            packer: Packer::new(initial_size),
            size: initial_size,
            glyph_cache: new_cache(capacity),
            capacity,
        }
    }

    /// The side of the surface, in pixels.
    pub fn size(&self) -> (r: u32)
        ensures
            r == self@.size,
    {
        self.size
    }

    /// The glyphs held, from the least to the most recently used.
    pub fn glyphs(&self) -> (r: Vec<((char, u32), GlyphDetails)>)
        ensures
            r@ == self@.entries,
    {
        cache_entries(&self.glyph_cache)
    }

    /// Doubles the side of the surface and places every glyph held again, in a new packer;
    /// the glyphs forgotten earlier give their space back. On an error nothing changes.
    pub fn grow(&mut self) -> (r: Result<(), AtlasError>)
        requires
            old(self).wf(),
        ensures
            final(self).wf(),
            final(self)@.wf(),
            final(self)@.capacity == old(self)@.capacity,
            old(self)@.size > MAX_ATLAS_SIZE / 2 ==> r == Err::<(), AtlasError>(AtlasError::AtlasFull)
                && final(self)@ == old(self)@,
            old(self)@.size <= MAX_ATLAS_SIZE / 2 ==> match repack(
                (2 * old(self)@.size) as u32,
                old(self)@.entries,
            ) {
                None => r == Err::<(), AtlasError>(AtlasError::RepackFailed) && final(self)@ == old(
                    self,
                )@,
                Some(ps) => r == Ok::<(), AtlasError>(()) && final(self)@ == (AtlasModel {
                    size: 2 * old(self)@.size,
                    capacity: old(self)@.capacity,
                    entries: moved_to(old(self)@.entries, ps),
                    packed: rects_of(moved_to(old(self)@.entries, ps)),
                    asked: sizes_of(old(self)@.entries),
                }),
            },
            r is Ok ==> final(self)@.size == 2 * old(self)@.size && same_glyphs(
                old(self)@.entries,
                final(self)@.entries,
            ),
            r is Err ==> final(self)@ == old(self)@,
            r == Err::<(), AtlasError>(AtlasError::AtlasFull) <==> old(self)@.size > MAX_ATLAS_SIZE
                / 2,
            r != Err::<(), AtlasError>(AtlasError::GlyphTooLarge),
    {
        if self.size > MAX_ATLAS_SIZE / 2 {
            return Err(AtlasError::AtlasFull);
        }
        let new_size = self.size * 2;
        let mut packer = Packer::new(new_size);
        let mut cache = new_cache(self.capacity);
        let entries = cache_entries(&self.glyph_cache);
        let ghost old_entries = entries@;
        let mut i: usize = 0;
        while i < entries.len()
            invariant
                entries@ == old_entries,
                old_entries == self@.entries,
                self.wf(),
                new_size == 2 * self.size,
                new_size <= MAX_ATLAS_SIZE,
                0 <= i <= entries@.len(),
                packer.side() == new_size,
                lru_capacity(cache) == self.capacity,
                lru_entries(cache).len() == i,
                repack(new_size, old_entries.subrange(0, i as int)) is Some,
                lru_entries(cache) == moved_to(
                    old_entries.subrange(0, i as int),
                    repack(new_size, old_entries.subrange(0, i as int))->0,
                ),
                packer.asked() == sizes_of(old_entries.subrange(0, i as int)),
                packer.handed_out() == rects_of(lru_entries(cache)),
                forall|k: int|
                    0 <= k < i ==> #[trigger] lru_entries(cache)[k].0 == old_entries[k].0
                        && lru_entries(cache)[k].1.width == old_entries[k].1.width
                        && lru_entries(cache)[k].1.height == old_entries[k].1.height,
                (AtlasModel {
                    size: new_size as int,
                    capacity: self.capacity as int,
                    entries: lru_entries(cache),
                    packed: packer.handed_out(),
                    asked: packer.asked(),
                }).wf(),
            decreases entries@.len() - i,
        {
            let (key, d) = entries[i];
            proof {
                assert(old_entries[i as int].1 == d);
                assert(self@.packed.contains(rect_of(d)));
            }
            let ghost before = lru_entries(cache);
            let ghost packed_before = packer.handed_out();
            let ghost asked_before = packer.asked();
            let ghost sub = old_entries.subrange(0, i as int);
            let ghost next = old_entries.subrange(0, i + 1);
            let ghost ps = repack(new_size, sub)->0;
            proof {
                assert(next.drop_last() =~= sub);
                assert(next.last() == (key, d));
                lemma_repack_len(new_size, sub);
            }
            let ghost m0 = AtlasModel {
                size: new_size as int,
                capacity: self.capacity as int,
                entries: before,
                packed: packed_before,
                asked: asked_before,
            };
            assert(m0.wf());
            match packer.allocate(d.width, d.height) {
                Some(pos) => {
                    let moved = GlyphDetails { x: pos.0, y: pos.1, width: d.width, height: d.height };
                    proof {
                        assert forall|k: int| 0 <= k < before.len() implies before[k].0 != key by {
                            assert(before[k].0 == old_entries[k].0);
                        }
                    }
                    cache_put(&mut cache, key, moved);
                    proof {
                        assert(repack(new_size, next) == Some(ps.push(pos)));
                        assert(lru_entries(cache) =~= moved_to(next, ps.push(pos)));
                        assert(sizes_of(sub).push((d.width, d.height)) =~= sizes_of(next));
                        assert(packer.handed_out() =~= rects_of(lru_entries(cache))) by {
                            let now = lru_entries(cache);
                            assert forall|q: (int, int, int, int)| #[trigger]
                                packer.handed_out().contains(q) implies rects_of(now).contains(q) by {
                                if q == rect_of(moved) {
                                    assert(now[i as int].1 == moved);
                                } else {
                                    assert(rects_of(before).contains(q));
                                    let k = choose|k: int| 0 <= k < before.len() && q == rect_of(before[k].1);
                                    assert(now[k] == before[k]);
                                }
                            }
                            assert forall|q: (int, int, int, int)| #[trigger]
                                rects_of(now).contains(q) implies packer.handed_out().contains(q) by {
                                let k = choose|k: int| 0 <= k < now.len() && q == rect_of(now[k].1);
                                if k < before.len() {
                                    assert(now[k] == before[k]);
                                    assert(rects_of(before).contains(q));
                                }
                            }
                        }
                        assert(lru_entries(cache) == before.push((key, moved)));
                        let m = AtlasModel {
                            size: new_size as int,
                            capacity: self.capacity as int,
                            entries: lru_entries(cache),
                            packed: packer.handed_out(),
                    asked: packer.asked(),
                        };
                        assert(keys_unique(m.entries)) by {
                            assert forall|a: int, b: int| 0 <= a < b < m.entries.len() implies m.entries[a].0
                                != m.entries[b].0 by {
                                assert(m.entries[a] == before[a]);
                                if b < before.len() {
                                    assert(m.entries[b] == before[b]);
                                }
                            }
                        }
                        let rect = rect_of(moved);
                        assert(inside(rect, new_size as int));
                        assert forall|q: (int, int, int, int)| #[trigger] m.packed.contains(q) implies inside(q, m.size) by {
                            if q != rect {
                                assert(m0.packed.contains(q));
                            }
                        }
                        assert forall|q1: (int, int, int, int), q2: (int, int, int, int)|
                            #[trigger] m.packed.contains(q1) && #[trigger] m.packed.contains(q2) && q1 != q2
                            implies disjoint(q1, q2) by {
                            if q1 == rect {
                                assert(m0.packed.contains(q2));
                            } else if q2 == rect {
                                assert(m0.packed.contains(q1));
                            } else {
                                assert(m0.packed.contains(q1));
                                assert(m0.packed.contains(q2));
                            }
                        }
                        assert forall|k: int| 0 <= k < m.entries.len() implies m.packed.contains(
                            #[trigger] rect_of(m.entries[k].1),
                        ) by {
                            if k < before.len() {
                                assert(m.entries[k] == before[k]);
                            }
                        }
                        assert forall|a: int, b: int|
                            0 <= a < b < m.entries.len() implies rect_of(
                            #[trigger] m.entries[a].1,
                        ) != rect_of(#[trigger] m.entries[b].1) by {
                            assert(m.entries[a] == before[a]);
                            if b == before.len() {
                                assert(packed_before.contains(rect_of(before[a].1)));
                            } else {
                                assert(m.entries[b] == before[b]);
                            }
                        }
                        assert forall|k: int| 0 <= k <= i implies #[trigger] lru_entries(cache)[k].0
                            == old_entries[k].0 && lru_entries(cache)[k].1.width
                            == old_entries[k].1.width && lru_entries(cache)[k].1.height
                            == old_entries[k].1.height by {
                            if k < i {
                                assert(lru_entries(cache)[k] == before[k]);
                            }
                        }
                    }
                },
                None => {
                    proof {
                        lemma_repack_prefix_none(new_size, old_entries, i + 1);
                    }
                    return Err(AtlasError::RepackFailed);
                },
            }
            i = i + 1;
        }
        proof {
            assert(old_entries.subrange(0, i as int) =~= old_entries);
        }
        self.packer = packer;
        self.glyph_cache = cache;
        self.size = new_size;
        Ok(())
    }

    /// The rectangle of the glyph of `character` at `font_size` where it is held; it becomes
    /// the most recently used. Where it is not held nothing changes.
    pub fn lookup_glyph(&mut self, character: char, font_size: u32) -> (r: Option<GlyphDetails>)
        requires
            old(self).wf(),
        ensures
            final(self).wf(),
            final(self)@.wf(),
            r is None <==> !has_key(old(self)@.entries, (character, font_size)),
            r is None ==> final(self)@ == old(self)@,
            forall|i: int|
                key_at(old(self)@.entries, (character, font_size), i) ==> r == Some(
                    old(self)@.entries[i].1,
                ) && final(self)@ == (AtlasModel {
                    entries: old(self)@.entries.remove(i).push(old(self)@.entries[i]),
                    ..old(self)@
                }),
    {
        let key = (character, font_size);
        let ghost start = self@;
        let r = cache_get(&mut self.glyph_cache, key);
        proof {
            if r is Some {
                let i = choose|i: int| key_at(start.entries, key, i);
                lemma_touch_wf(start, i);
                assert forall|j: int| key_at(start.entries, key, j) implies j == i by {
                    if j < i {
                        assert(start.entries[j].0 != start.entries[i].0);
                    } else if i < j {
                        assert(start.entries[i].0 != start.entries[j].0);
                    }
                }
            }
        }
        r
    }

    /// The rectangle of the glyph of `character` at `font_size`. A glyph already held is
    /// returned as it is and becomes the most recently used. Otherwise `width` and `height`, the
    /// size of its rasterization, decide: an empty one gives `None` and is not kept; a larger
    /// one than the largest surface is an error; else the glyph is placed, the surface growing
    /// as often as needed up to its largest side, and kept, the least recently used glyph being
    /// forgotten where the lookup is full.
    #[verifier::loop_isolation(false)]
    pub fn get_or_create_glyph(
        &mut self,
        character: char,
        font_size: u32,
        width: u32,
        height: u32,
    ) -> (r: Result<Option<GlyphDetails>, AtlasError>)
        requires
            old(self).wf(),
        ensures
            final(self).wf(),
            old(self)@.glyph_post((character, font_size), width, height, r, final(self)@),
    {
        let key = (character, font_size);
        let ghost start = self@;
        if let Some(d) = self.lookup_glyph(character, font_size) {
            return Ok(Some(d));
        }
        if width == 0 || height == 0 {
            return Ok(None);
        }
        if width > MAX_ATLAS_SIZE || height > MAX_ATLAS_SIZE {
            return Err(AtlasError::GlyphTooLarge);
        }
        loop
            invariant
                self.wf(),
                !has_key(start.entries, key),
                0 < width <= MAX_ATLAS_SIZE,
                0 < height <= MAX_ATLAS_SIZE,
                start.wf(),
                self@.capacity == start.capacity,
                self@.size >= start.size,
                same_glyphs(self@.entries, start.entries),
                self@.size == start.size ==> self@ == start,
                self@.size != start.size ==> placement(start.size as u32, start.asked, width, height)
                    is None,
            decreases MAX_ATLAS_SIZE - self@.size,
        {
            let ghost mid = self@;
            proof {
                lemma_same_glyphs_keys(mid.entries, start.entries, key);
                assert(forall|i: int| !key_at(start.entries, key, i));
            }
            match self.packer.allocate(width, height) {
                Some(pos) => {
                    let d = GlyphDetails { x: pos.0, y: pos.1, width, height };
                    cache_put(&mut self.glyph_cache, key, d);
                    proof {
                        lemma_insert_wf(mid, key, d);
                        assert(self@ == (AtlasModel {
                            entries: lru_insert(mid.entries, mid.capacity, key, d),
                            packed: mid.packed.insert(rect_of(d)),
                            asked: mid.asked.push((width, height)),
                            ..mid
                        }));
                        lemma_same_glyphs_insert(mid.entries, start.entries, start.capacity, key, d);
                    }
                    return Ok(Some(d));
                },
                None => {
                    match self.grow() {
                        Ok(()) => {
                            proof {
                                lemma_same_glyphs_trans(start.entries, mid.entries, self@.entries);
                            }
                        },
                        Err(e) => {
                            return Err(e);
                        },
                    }
                },
            }
        }
    }
}

/// A glyph that `get_or_create_glyph` has just returned is found by the next call for the same
/// character and size, which returns the same rectangle and leaves the surface as it is.
pub proof fn lemma_repeat_lookup(
    a0: AtlasModel,
    a1: AtlasModel,
    a2: AtlasModel,
    key: (char, u32),
    w1: u32,
    h1: u32,
    w2: u32,
    h2: u32,
    d: GlyphDetails,
    r2: Result<Option<GlyphDetails>, AtlasError>,
)
    requires
        a0.glyph_post(key, w1, h1, Ok(Some(d)), a1),
        a1.glyph_post(key, w2, h2, r2, a2),
    ensures
        r2 == Ok::<Option<GlyphDetails>, AtlasError>(Some(d)),
        a2.size == a1.size,
        a2.entries.last() == (key, d),
{
    let n = a1.entries.len() - 1;
    if has_key(a0.entries, key) {
        let i = choose|i: int| key_at(a0.entries, key, i);
        assert(a1.entries[n] == a0.entries[i]);
    }
    assert(a1.entries[n] == (key, d));
    assert(key_at(a1.entries, key, n));
    assert(a1.entries.remove(n) =~= a1.entries.drop_last());
}

/// Every glyph an atlas holds lies inside its surface, and no two of them overlap; so after a
/// growth, which keeps every glyph (see `InnerAtlas::grow`), each is found inside the larger
/// surface.
pub proof fn lemma_glyphs_placed(a: AtlasModel)
    requires
        a.wf(),
    ensures
        forall|i: int| 0 <= i < a.entries.len() ==> inside(#[trigger] rect_of(a.entries[i].1), a.size),
        forall|i: int, j: int|
            0 <= i < a.entries.len() && 0 <= j < a.entries.len() && i != j ==> disjoint(
                #[trigger] rect_of(a.entries[i].1),
                #[trigger] rect_of(a.entries[j].1),
            ),
{
    assert forall|i: int, j: int|
        0 <= i < a.entries.len() && 0 <= j < a.entries.len() && i != j implies disjoint(
        #[trigger] rect_of(a.entries[i].1),
        #[trigger] rect_of(a.entries[j].1),
    ) by {
        assert(a.packed.contains(rect_of(a.entries[i].1)));
        assert(a.packed.contains(rect_of(a.entries[j].1)));
        if i < j {
            assert(rect_of(a.entries[i].1) != rect_of(a.entries[j].1));
        } else {
            assert(rect_of(a.entries[j].1) != rect_of(a.entries[i].1));
        }
    }
}

/// After a growth every glyph held before is still held, under the same key and with the same
/// size, inside the new surface, and no two glyphs overlap.
pub proof fn lemma_growth_keeps_glyphs(before: AtlasModel, after: AtlasModel, key: (char, u32))
    requires
        before.wf(),
        after.wf(),
        same_glyphs(before.entries, after.entries),
        has_key(before.entries, key),
    ensures
        exists|i: int|
            key_at(after.entries, key, i) && inside(#[trigger] rect_of(after.entries[i].1), after.size),
        forall|i: int, j: int|
            0 <= i < after.entries.len() && 0 <= j < after.entries.len() && i != j ==> disjoint(
                #[trigger] rect_of(after.entries[i].1),
                #[trigger] rect_of(after.entries[j].1),
            ),
{
    let i = choose|i: int| key_at(before.entries, key, i);
    assert(before.entries[i].0 == after.entries[i].0);
    lemma_glyphs_placed(after);
    assert(key_at(after.entries, key, i) && inside(rect_of(after.entries[i].1), after.size));
}

} // verus!
