use rterm::atlas::{AtlasError, GlyphDetails, InnerAtlas, INITIAL_SIZE, MAX_ATLAS_SIZE};

fn inside(d: &GlyphDetails, side: u32) -> bool {
    d.width > 0 && d.height > 0 && d.x + d.width <= side && d.y + d.height <= side
}

fn disjoint(a: &GlyphDetails, b: &GlyphDetails) -> bool {
    a.x + a.width <= b.x || b.x + b.width <= a.x || a.y + a.height <= b.y || b.y + b.height <= a.y
}

#[test]
fn new_atlas_is_empty() {
    let a = InnerAtlas::new();
    assert_eq!(a.size(), INITIAL_SIZE);
    assert!(a.glyphs().is_empty());
}

#[test]
fn created_glyph_has_its_size_and_is_reused() {
    let mut a = InnerAtlas::new();
    let first = a.get_or_create_glyph('a', 16, 8, 10).unwrap().unwrap();
    assert_eq!((first.width, first.height), (8, 10));
    assert!(inside(&first, a.size()));
    // a hit ignores the sizes handed in
    let again = a.get_or_create_glyph('a', 16, 3, 3).unwrap().unwrap();
    assert_eq!(again, first);
    let other = a.get_or_create_glyph('a', 20, 8, 10).unwrap().unwrap();
    assert!(disjoint(&first, &other));
    assert_eq!(a.glyphs().len(), 2);
}

#[test]
fn empty_glyph_is_not_kept() {
    let mut a = InnerAtlas::new();
    assert_eq!(a.get_or_create_glyph(' ', 16, 0, 12), Ok(None));
    assert_eq!(a.get_or_create_glyph(' ', 16, 5, 0), Ok(None));
    assert!(a.glyphs().is_empty());
}

#[test]
fn glyph_larger_than_largest_surface_is_refused() {
    let mut a = InnerAtlas::new();
    assert_eq!(a.get_or_create_glyph('W', 900, MAX_ATLAS_SIZE + 1, 4), Err(AtlasError::GlyphTooLarge));
    assert_eq!(a.size(), INITIAL_SIZE);
}

#[test]
fn growth_keeps_every_glyph_inside_and_apart() {
    let mut a = InnerAtlas::with_limits(16, 100);
    let chars = ['a', 'b', 'c', 'd', 'e', 'f', 'g', 'h'];
    for &c in chars.iter() {
        assert!(a.get_or_create_glyph(c, 12, 8, 8).unwrap().is_some());
    }
    assert!(a.size() >= 32);
    let glyphs = a.glyphs();
    let keys: Vec<char> = glyphs.iter().map(|(k, _)| k.0).collect();
    assert_eq!(keys, chars.to_vec());
    for (i, (_, d)) in glyphs.iter().enumerate() {
        assert_eq!((d.width, d.height), (8, 8));
        assert!(inside(d, a.size()));
        for (j, (_, e)) in glyphs.iter().enumerate() {
            if i != j {
                assert!(disjoint(d, e));
            }
        }
    }
    // each glyph is found again where the lookup says it is
    for (k, d) in glyphs.iter() {
        assert_eq!(a.get_or_create_glyph(k.0, k.1, 1, 1), Ok(Some(*d)));
    }
}

#[test]
fn grow_doubles_and_stops_at_the_limit() {
    let mut a = InnerAtlas::with_limits(16, 10);
    a.get_or_create_glyph('q', 10, 5, 7).unwrap();
    assert_eq!(a.grow(), Ok(()));
    assert_eq!(a.size(), 32);
    let g = a.glyphs();
    assert_eq!(g.len(), 1);
    assert_eq!(g[0].0, ('q', 10));
    assert_eq!((g[0].1.width, g[0].1.height), (5, 7));
    let mut full = InnerAtlas::with_limits(MAX_ATLAS_SIZE, 10);
    assert_eq!(full.grow(), Err(AtlasError::AtlasFull));
    assert_eq!(full.size(), MAX_ATLAS_SIZE);
}

#[test]
fn full_atlas_reports_error() {
    let mut a = InnerAtlas::with_limits(MAX_ATLAS_SIZE, 4);
    let big = a.get_or_create_glyph('M', 1000, MAX_ATLAS_SIZE, MAX_ATLAS_SIZE).unwrap().unwrap();
    assert_eq!((big.x, big.y), (0, 0));
    assert_eq!(a.get_or_create_glyph('i', 10, 1, 1), Err(AtlasError::AtlasFull));
    assert_eq!(a.glyphs().len(), 1);
}

#[test]
fn least_recently_used_glyph_is_forgotten() {
    let mut a = InnerAtlas::with_limits(256, 2);
    let first_a = a.get_or_create_glyph('a', 10, 4, 4).unwrap().unwrap();
    a.get_or_create_glyph('b', 10, 4, 4).unwrap();
    // touching 'a' makes 'b' the least recently used
    a.get_or_create_glyph('a', 10, 4, 4).unwrap();
    a.get_or_create_glyph('c', 10, 4, 4).unwrap();
    let keys: Vec<(char, u32)> = a.glyphs().iter().map(|(k, _)| *k).collect();
    assert_eq!(keys, vec![('a', 10), ('c', 10)]);
    a.get_or_create_glyph('d', 10, 4, 4).unwrap();
    let keys: Vec<(char, u32)> = a.glyphs().iter().map(|(k, _)| *k).collect();
    assert_eq!(keys, vec![('c', 10), ('d', 10)]);
    // a forgotten glyph gets a new rectangle: the old one stays reserved
    let second_a = a.get_or_create_glyph('a', 10, 4, 4).unwrap().unwrap();
    assert!(disjoint(&first_a, &second_a));
}

#[test]
fn lookup_finds_only_held_glyphs() {
    let mut a = InnerAtlas::with_limits(64, 4);
    assert_eq!(a.lookup_glyph('x', 12), None);
    assert!(a.glyphs().is_empty());
    let d = a.get_or_create_glyph('x', 12, 6, 9).unwrap().unwrap();
    a.get_or_create_glyph('y', 12, 6, 9).unwrap();
    assert_eq!(a.lookup_glyph('x', 12), Some(d));
    let keys: Vec<(char, u32)> = a.glyphs().iter().map(|(k, _)| *k).collect();
    assert_eq!(keys, vec![('y', 12), ('x', 12)]);
}

#[test]
fn empty_atlas_always_grows() {
    let mut a = InnerAtlas::with_limits(MAX_ATLAS_SIZE / 2, 4);
    assert_eq!(a.grow(), Ok(()));
    assert_eq!(a.size(), MAX_ATLAS_SIZE);
    assert!(a.glyphs().is_empty());
}
