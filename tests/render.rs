use tzompantli::cache::{CacheKey, RenderCache};
use tzompantli::catalog::{DesktopEntries, DesktopFile, IconIdentifier};
use tzompantli::config::{parse_color, Color, ColorError, Colors, TextStyle};
use tzompantli::geometry::Size;
use tzompantli::grid::Grid;
use tzompantli::index::IconLoader;
use tzompantli::pixels::{icon_pixels, premultiply};

fn b(s: &str) -> Vec<u8> {
    s.as_bytes().to_vec()
}

fn style(size: u32) -> TextStyle {
    TextStyle { family: b("sans"), size, foreground: Color::new(255, 255, 255), background: Color::new(24, 24, 24) }
}

fn catalog(n: usize) -> DesktopEntries {
    let files: Vec<DesktopFile> = (0..n)
        .map(|i| DesktopFile {
            filename: b(&format!("app{i:02}.desktop")),
            path: b(&format!("/r/applications/app{i:02}.desktop")),
            content: b(&format!("Name=App {i:02}\nExec=app{i}\n")),
        })
        .collect();
    DesktopEntries::new(&files, IconLoader::new(&Vec::new(), &Vec::new()))
}

#[test]
fn second_render_is_served_from_cache() {
    let entries = catalog(2);
    let grid = Grid::new(Size::new(360, 720), 120);
    let mut cache: RenderCache<u32> = RenderCache::new(style(1600), 120);
    let first = cache.render_entries(&entries, 0, &grid, false);
    assert_eq!(first.len(), 5);
    assert!(first.iter().all(|it| it.cached.is_none()));
    assert_eq!(first[1].name, Vec::<u8>::new());
    assert!(matches!(first[1].icon.identifier, IconIdentifier::Config));
    for (n, it) in first.into_iter().enumerate() {
        cache.insert(CacheKey { icon: it.icon, name: it.name }, n as u32);
    }
    let second = cache.render_entries(&entries, 0, &grid, false);
    assert_eq!(second.len(), 5);
    for (n, it) in second.iter().enumerate() {
        let slot = it.cached.expect("cached");
        assert_eq!(*cache.slot(slot), n as u32);
    }
    let key = CacheKey { icon: second[3].icon.clone(), name: second[3].name.clone() };
    assert_eq!(cache.get(&key), Some(&3));
}

#[test]
fn style_or_scale_change_clears_cache() {
    let entries = catalog(1);
    let grid = Grid::new(Size::new(360, 720), 120);
    let mut cache: RenderCache<u32> = RenderCache::new(style(1600), 120);
    for it in cache.render_entries(&entries, 0, &grid, false) {
        cache.insert(CacheKey { icon: it.icon, name: it.name }, 1);
    }
    assert_eq!(cache.len(), 4);
    assert!(!cache.update_style(style(1600)));
    assert_eq!(cache.len(), 4);
    assert!(cache.update_style(style(1800)));
    assert_eq!(cache.len(), 0);
    cache.insert(CacheKey { icon: entries.icon(entries.all_get(2).unwrap(), 64), name: b("Reboot") }, 3);
    let mut darker = style(1800);
    darker.background = Color::new(0, 0, 0);
    assert!(cache.update_style(darker));
    assert_eq!(cache.len(), 0);
    cache.insert(CacheKey { icon: entries.icon(entries.all_get(0).unwrap(), 64), name: b("Poweroff") }, 7);
    assert!(!cache.set_scale_factor(120));
    assert_eq!(cache.len(), 1);
    assert!(cache.set_scale_factor(180));
    assert_eq!(cache.len(), 0);
}

#[test]
fn only_entries_in_view_are_planned() {
    let entries = catalog(30);
    let grid = Grid::new(Size::new(360, 400), 120);
    let cache: RenderCache<u32> = RenderCache::new(style(1600), 120);
    let items = cache.render_entries(&entries, -300, &grid, false);
    let indices: Vec<usize> = items.iter().map(|it| it.index).collect();
    assert_eq!(indices, (6..18).collect::<Vec<usize>>());
    assert_eq!(items[0].origin.y, 278 - 300);
    assert_eq!(items[0].origin.x, 18);
    let grid_positions: Vec<usize> = items.iter().map(|it| it.grid_index).collect();
    assert_eq!(grid_positions, (6..18).collect::<Vec<usize>>());
    let edge = cache.render_entries(&entries, -260, &grid, false);
    assert_eq!(edge[0].origin.y, -112);
    let indices: Vec<usize> = edge.iter().map(|it| it.index).collect();
    assert_eq!(indices, (3..15).collect::<Vec<usize>>());
    let configuring = cache.render_entries(&entries, 0, &grid, true);
    assert_eq!(configuring[1].name, b("Tap App"));
}

#[test]
fn premultiplication_uses_fixed_point_rounding() {
    let mut px = vec![255, 128, 0, 128, 200, 100, 50, 255, 255, 255, 255, 0, 10, 20, 30, 40];
    premultiply(&mut px);
    assert_eq!(px, vec![128, 64, 0, 128, 200, 100, 50, 255, 0, 0, 0, 0, 2, 3, 5, 40]);
}

#[test]
fn loaded_pixels_are_square_and_premultiplied() {
    let placeholder = vec![255u8; 2 * 2 * 4];
    let decoded = vec![255, 255, 255, 100, 9, 9, 9, 9, 0, 0, 0, 0, 50, 60, 70, 255];
    let out = icon_pixels(Some(decoded), placeholder.clone(), 2);
    assert_eq!(out, vec![100, 100, 100, 100, 0, 0, 0, 9, 0, 0, 0, 0, 50, 60, 70, 255]);
    let wrong = icon_pixels(Some(vec![1, 2, 3]), placeholder.clone(), 2);
    assert_eq!(wrong, placeholder);
    let none = icon_pixels(None, vec![10, 20, 30, 128, 0, 0, 0, 0, 1, 1, 1, 1, 2, 2, 2, 2], 2);
    assert_eq!(none.len(), 16);
    for p in none.chunks(4) {
        assert!(p[0] <= p[3] && p[1] <= p[3] && p[2] <= p[3]);
    }
    assert_eq!(&none[0..4], &[5, 10, 15, 128]);
}

#[test]
fn default_colors() {
    let c = Colors::default();
    assert_eq!(c.foreground, Color::new(255, 255, 255));
    assert_eq!(c.background, Color::new(24, 24, 24));
}

#[test]
fn colors_parse_from_hex() {
    assert_eq!(parse_color(b"#ff00ff"), Ok(Color::new(255, 0, 255)));
    assert_eq!(parse_color(b"#FF8000"), Ok(Color::new(255, 128, 0)));
    assert_eq!(parse_color(b"#+12345"), Ok(Color::new(1, 35, 69)));
    assert_eq!(parse_color(b"ff00ff"), Err(ColorError::MissingHash));
    assert_eq!(parse_color(b""), Err(ColorError::MissingHash));
    assert_eq!(parse_color(b"#fff"), Err(ColorError::WrongLength(3)));
    assert_eq!(parse_color(b"#gg0000"), Err(ColorError::NonHex));
    assert_eq!(Color::new(255, 0, 171).to_hex(), b("#ff00ab"));
    let c = Color::new(24, 200, 7);
    assert_eq!(parse_color(&c.to_hex()), Ok(c));
}
