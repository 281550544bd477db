use tzompantli::index::{classify_dir, icon_name, parse_u32, pixmap_kind, IconLoader, ImageType, PixmapFile, ThemeFile};
use tzompantli::theme::{parse_index, themes_for_dir, ThemeIndex};

fn b(s: &str) -> Vec<u8> {
    s.as_bytes().to_vec()
}

fn tf(theme: &str, dir: &str, name: &str, path: &str) -> ThemeFile {
    ThemeFile { theme: b(theme), dir_name: b(dir), file_name: b(name), path: b(path) }
}

#[test]
fn index_file_inherits() {
    assert_eq!(parse_index(b"[Icon Theme]\nName=Adwaita\nInherits=hicolor,gnome extra\n"), vec![b("hicolor"), b("gnome")]);
    assert_eq!(parse_index(b"Name=x\n"), Vec::<Vec<u8>>::new());
    assert_eq!(parse_index(b"Inherits="), vec![b("")]);
}

#[test]
fn chain_is_breadth_first_without_repeats() {
    let indexes = vec![
        ThemeIndex { name: b("default"), content: b("Inherits=Adwaita,hicolor\n") },
        ThemeIndex { name: b("Adwaita"), content: b("[Icon Theme]\nInherits=gnome,hicolor\n") },
        ThemeIndex { name: b("hicolor"), content: b("Inherits=default\n") },
    ];
    assert_eq!(themes_for_dir(&indexes), vec![b("default"), b("Adwaita"), b("hicolor"), b("gnome")]);
    assert_eq!(themes_for_dir(&Vec::new()), vec![b("default")]);
}

#[test]
fn theme_directories_are_classified() {
    assert_eq!(classify_dir(b"scalable"), Some(ImageType::Scalable));
    assert_eq!(classify_dir(b"symbolic"), Some(ImageType::Symbolic));
    assert_eq!(classify_dir(b"48x48"), Some(ImageType::SizedBitmap(48)));
    assert_eq!(classify_dir(b"48x32"), None);
    assert_eq!(classify_dir(b"actions"), None);
    assert_eq!(classify_dir(b"x48"), None);
    assert_eq!(parse_u32(b"+17"), Some(17));
    assert_eq!(parse_u32(b"4294967295"), Some(u32::MAX));
    assert_eq!(parse_u32(b"4294967296"), None);
    assert_eq!(parse_u32(b"1a"), None);
}

#[test]
fn icon_file_names() {
    assert_eq!(icon_name(b"firefox.png", ImageType::SizedBitmap(48)), Some(b("firefox")));
    assert_eq!(icon_name(b"a.b.svg", ImageType::Scalable), Some(b("a.b")));
    assert_eq!(icon_name(b".hidden", ImageType::Scalable), None);
    assert_eq!(icon_name(b"noext", ImageType::Scalable), None);
    assert_eq!(icon_name(b"go-up-symbolic.svg", ImageType::Symbolic), Some(b("go-up")));
    assert_eq!(icon_name(b"go-up.svg", ImageType::Symbolic), None);
    assert_eq!(pixmap_kind(b"vlc.png"), Some((b("vlc"), ImageType::Bitmap)));
    assert_eq!(pixmap_kind(b"vlc.svg"), Some((b("vlc"), ImageType::Scalable)));
    assert_eq!(pixmap_kind(b"vlc.xpm"), None);
}

fn sample_loader() -> IconLoader {
    let files = vec![
        tf("Adwaita", "symbolic", "term-symbolic.svg", "/a/symbolic/term-symbolic.svg"),
        tf("hicolor", "48x48", "firefox.png", "/h/48/firefox.png"),
        tf("hicolor", "scalable", "firefox.svg", "/h/scalable/firefox.svg"),
        tf("hicolor", "64x64", "firefox.png", "/h/64/firefox.png"),
        tf("hicolor", "32x32", "viewer.png", "/h/32/viewer.png"),
        tf("hicolor", "128x128", "viewer.png", "/h/128/viewer.png"),
        tf("hicolor", "128x128", "term.png", "/h/128/term.png"),
        tf("hicolor", "apps", "ignored.png", "/h/apps/ignored.png"),
    ];
    let pixmaps = vec![
        PixmapFile { file_name: b("firefox.png"), path: b("/pixmaps/firefox.png") },
        PixmapFile { file_name: b("vlc.png"), path: b("/pixmaps/vlc.png") },
        PixmapFile { file_name: b("vlc.svg"), path: b("/pixmaps/vlc.svg") },
    ];
    IconLoader::new(&files, &pixmaps)
}

#[test]
fn exact_size_wins_then_scalable() {
    let l = sample_loader();
    assert_eq!(l.icon_path(b"firefox", 64), Some(b("/h/64/firefox.png")));
    assert_eq!(l.icon_path(b"firefox", 48), Some(b("/h/48/firefox.png")));
    assert_eq!(l.icon_path(b"firefox", 100), Some(b("/h/scalable/firefox.svg")));
}

#[test]
fn nearest_bitmap_size_ties_favor_larger() {
    let l = sample_loader();
    assert_eq!(l.icon_path(b"viewer", 64), Some(b("/h/32/viewer.png")));
    assert_eq!(l.icon_path(b"viewer", 80), Some(b("/h/128/viewer.png")));
    assert_eq!(l.icon_path(b"viewer", 100), Some(b("/h/128/viewer.png")));
}

#[test]
fn first_theme_owns_a_name() {
    let l = sample_loader();
    assert_eq!(l.icon_path(b"term", 128), Some(b("/a/symbolic/term-symbolic.svg")));
}

#[test]
fn fallback_directory_only_adds_unclaimed_names() {
    let l = sample_loader();
    assert_eq!(l.icon_path(b"vlc", 64), Some(b("/pixmaps/vlc.png")));
    assert_eq!(l.icon_path(b"firefox", 32), Some(b("/h/scalable/firefox.svg")));
    assert_eq!(l.icon_path(b"missing", 64), None);
    assert_eq!(l.icon_path(b"ignored", 64), None);
}

#[test]
fn resolved_paths_stay_within_the_chain() {
    let indexes = vec![ThemeIndex { name: b("default"), content: b("Inherits=hicolor\n") }];
    let chain = themes_for_dir(&indexes);
    let files = vec![
        tf("default", "scalable", "a.svg", "/d/a.svg"),
        tf("hicolor", "16x16", "b.png", "/h/b.png"),
    ];
    let files: Vec<ThemeFile> = files.into_iter().filter(|f| chain.contains(&f.theme)).collect();
    let l = IconLoader::new(&files, &Vec::new());
    assert_eq!(l.icon_path(b"a", 16), Some(b("/d/a.svg")));
    assert_eq!(l.icon_path(b"b", 16), Some(b("/h/b.png")));
}
