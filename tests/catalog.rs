use tzompantli::catalog::{
    tap_action, DesktopEntries, DesktopFile, ExecAction, IconIdentifier, IconType, TapAction,
};
use tzompantli::entry::parse_desktop_entry;
use tzompantli::index::{IconLoader, PixmapFile, ThemeFile};
use tzompantli::marker::{hide_content, show_edit, MarkerEdit};

fn b(s: &str) -> Vec<u8> {
    s.as_bytes().to_vec()
}

fn file(name: &str, dir: &str, content: &str) -> DesktopFile {
    DesktopFile { filename: b(name), path: b(&format!("{dir}/applications/{name}")), content: b(content) }
}

fn empty_loader() -> IconLoader {
    IconLoader::new(&Vec::new(), &Vec::new())
}

#[test]
fn parse_reads_primary_group_only() {
    let p = parse_desktop_entry(
        b"[Desktop Entry]\nName=Foo\nExec=foo %U --bar\nIcon = foo-icon\n[Desktop Action new]\nName=Other\nExec=other\n",
    );
    assert_eq!(p.name, Some(b("Foo")));
    assert_eq!(p.command, Some(b("foo --bar")));
    assert_eq!(p.icon, Some(b("foo-icon")));
    assert!(!p.hidden);
}

#[test]
fn parse_strips_every_placeholder() {
    let p = parse_desktop_entry(b"Exec=%f app %F %u %U %k -x\r\nName=App\r\n");
    assert_eq!(p.command, Some(b("app -x")));
    assert_eq!(p.name, Some(b("App")));
}

#[test]
fn parse_no_display_true_marks_hidden() {
    let p = parse_desktop_entry(b"[Desktop Entry]\nNoDisplay = true \nName=Late\n");
    assert!(p.hidden);
    assert_eq!(p.name, None);
    let q = parse_desktop_entry(b"NoDisplay=false\nName=Shown\n");
    assert!(!q.hidden);
    assert_eq!(q.name, Some(b("Shown")));
}

#[test]
fn higher_priority_root_overrides_same_filename() {
    let files = vec![
        file("app.desktop", "/root_a", "[Desktop Entry]\nName=Bar App\nExec=bar\n"),
        file("app.desktop", "/root_b", "[Desktop Entry]\nName=Foo App\nExec=foo\n"),
    ];
    let entries = DesktopEntries::new(&files, empty_loader());
    assert_eq!(entries.all_len(), 4);
    let e = entries.all_get(3).unwrap();
    assert_eq!(e.name, b("Foo App"));
    assert_eq!(e.action, ExecAction::Run(b("foo")));
}

#[test]
fn builtins_come_first_and_apps_sort_by_name() {
    let files = vec![
        file("z.desktop", "/r", "Name=beta\nExec=z\n"),
        file("a.desktop", "/r", "Name=Zed\nExec=a\n"),
        file("m.desktop", "/r", "Name=alpha\nExec=m\n"),
    ];
    let entries = DesktopEntries::new(&files, empty_loader());
    let all = entries.all();
    assert_eq!(all[0].action, ExecAction::Poweroff);
    assert_eq!(all[1].action, ExecAction::Config);
    assert_eq!(all[2].action, ExecAction::Reboot);
    assert_eq!(all[0].name, b("Poweroff"));
    assert_eq!(all[1].name, b("Tap App"));
    assert_eq!(all[2].name, b("Reboot"));
    let names: Vec<Vec<u8>> = all[3..].iter().map(|e| e.name.clone()).collect();
    assert_eq!(names, vec![b("Zed"), b("alpha"), b("beta")]);
}

#[test]
fn later_no_display_appends_hidden_marker() {
    let files = vec![
        file("app.desktop", "/sys", "Name=App\nExec=app\n"),
        file("app.desktop", "/home", "[Desktop Entry]\nNoDisplay=true\n"),
    ];
    let entries = DesktopEntries::new(&files, empty_loader());
    let e = entries.all_get(3).unwrap();
    assert!(e.hidden());
    assert_eq!(e.hidden_paths, vec![b("/home/applications/app.desktop")]);
    assert_eq!(entries.visible(), vec![0, 1, 2]);
}

#[test]
fn later_file_without_exec_removes_entry() {
    let files = vec![
        file("app.desktop", "/sys", "Name=App\nExec=app\n"),
        file("app.desktop", "/home", "Name=App\n"),
    ];
    let entries = DesktopEntries::new(&files, empty_loader());
    assert_eq!(entries.all_len(), 3);
}

#[test]
fn file_with_exec_but_no_name_changes_nothing() {
    let files = vec![
        file("app.desktop", "/sys", "Name=App\nExec=app\n"),
        file("app.desktop", "/home", "Exec=other\n"),
    ];
    let entries = DesktopEntries::new(&files, empty_loader());
    assert_eq!(entries.all_get(3).unwrap().action, ExecAction::Run(b("app")));
}

#[test]
fn unknown_icon_name_resolves_to_placeholder() {
    let files = vec![file("a.desktop", "/r", "Name=A\nExec=a\nIcon=nonexistent-name\n")];
    let entries = DesktopEntries::new(&files, empty_loader());
    let icon = entries.icon(entries.all_get(3).unwrap(), 64);
    assert!(matches!(icon.identifier, IconIdentifier::Placeholder));
    assert_eq!(icon.icon_type(), IconType::Svg);
}

#[test]
fn absolute_icon_path_and_theme_lookup() {
    let theme_files = vec![ThemeFile {
        theme: b("hicolor"),
        dir_name: b("64x64"),
        file_name: b("viewer.png"),
        path: b("/usr/share/icons/hicolor/64x64/apps/viewer.png"),
    }];
    let loader = IconLoader::new(&theme_files, &Vec::<PixmapFile>::new());
    let files = vec![
        file("a.desktop", "/r", "Name=A\nExec=a\nIcon=/opt/a/icon.svgz\n"),
        file("b.desktop", "/r", "Name=B\nExec=b\nIcon=viewer\n"),
        file("c.desktop", "/r", "Name=C\nExec=c\nIcon=/opt/c/icon.xpm\n"),
    ];
    let entries = DesktopEntries::new(&files, loader);
    let a = entries.icon(entries.all_get(3).unwrap(), 64);
    assert!(matches!(&a.identifier, IconIdentifier::Path(p) if p == &b("/opt/a/icon.svgz")));
    assert_eq!(a.icon_type, IconType::Svg);
    let v = entries.icon(entries.all_get(4).unwrap(), 64);
    assert!(matches!(&v.identifier, IconIdentifier::Path(p) if p == &b("/usr/share/icons/hicolor/64x64/apps/viewer.png")));
    assert_eq!(v.icon_type, IconType::Png);
    let c = entries.icon(entries.all_get(5).unwrap(), 64);
    assert!(matches!(c.identifier, IconIdentifier::Placeholder));
}

#[test]
fn builtin_and_hidden_icons() {
    let mut entries = DesktopEntries::new(&vec![file("a.desktop", "/r", "Name=A\nExec=a\n")], empty_loader());
    let p = entries.icon(entries.all_get(0).unwrap(), 64);
    assert!(matches!(p.identifier, IconIdentifier::Poweroff));
    let r = entries.icon(entries.all_get(2).unwrap(), 64);
    assert!(matches!(r.identifier, IconIdentifier::Reboot));
    entries.add_hidden_path(3, b("/home/applications/a.desktop"));
    let h = entries.icon(entries.all_get(3).unwrap(), 64);
    assert!(matches!(h.identifier, IconIdentifier::Hidden));
}

#[test]
fn taps_map_to_actions() {
    let mut entries =
        DesktopEntries::new(&vec![file("a.desktop", "/r", "Name=A\nExec=run-a --now\n")], empty_loader());
    assert_eq!(tap_action(&entries, false, 0), TapAction::Poweroff);
    assert_eq!(tap_action(&entries, false, 1), TapAction::ToggleConfig);
    assert_eq!(tap_action(&entries, false, 2), TapAction::Reboot);
    assert_eq!(tap_action(&entries, false, 3), TapAction::Launch(b("run-a --now")));
    assert_eq!(tap_action(&entries, false, 4), TapAction::Nothing);
    assert_eq!(tap_action(&entries, true, 0), TapAction::Nothing);
    assert_eq!(tap_action(&entries, true, 1), TapAction::ToggleConfig);
    assert_eq!(tap_action(&entries, true, 3), TapAction::ToggleHidden(3));
    entries.add_hidden_path(3, b("/h/a.desktop"));
    assert_eq!(tap_action(&entries, false, 3), TapAction::Nothing);
    assert_eq!(tap_action(&entries, true, 3), TapAction::ToggleHidden(3));
}

#[test]
fn toggling_twice_restores_visibility_and_removes_marker() {
    let mut entries = DesktopEntries::new(&vec![file("a.desktop", "/r", "Name=A\nExec=a\n")], empty_loader());
    assert!(!entries.all_get(3).unwrap().hidden());
    let created = hide_content(None);
    assert_eq!(created, b("NoDisplay=true\n"));
    entries.add_hidden_path(3, b("/home/u/.local/share/applications/a.desktop"));
    assert!(entries.all_get(3).unwrap().hidden());
    let paths = entries.take_hidden_paths(3);
    assert_eq!(paths, vec![b("/home/u/.local/share/applications/a.desktop")]);
    assert_eq!(show_edit(&created), MarkerEdit::Remove);
    assert!(!entries.all_get(3).unwrap().hidden());
}

#[test]
fn toggling_twice_with_existing_user_file_leaves_no_marker() {
    let hidden = hide_content(Some(b("[Desktop Entry]\nName=X")));
    match show_edit(&hidden) {
        MarkerEdit::Write(content) => {
            assert_eq!(content, b("[Desktop Entry]\nName=X\nNoDisplay=false"));
            assert!(!String::from_utf8(content).unwrap().contains("NoDisplay=true"));
        },
        other => panic!("unexpected edit {other:?}"),
    }
    assert_eq!(show_edit(&hide_content(Some(b("NoDisplay=false\n")))), MarkerEdit::Remove);
}

#[test]
fn hiding_keeps_the_other_fields() {
    let mut entries =
        DesktopEntries::new(&vec![file("a.desktop", "/r", "Name=A\nExec=a\nIcon=app-a\n")], empty_loader());
    entries.add_hidden_path(3, b("/h/a.desktop"));
    let e = entries.all_get(3).unwrap();
    assert_eq!(e.icon_name, Some(b("app-a")));
    assert_eq!(e.name, b("A"));
    entries.take_hidden_paths(3);
    let e = entries.all_get(3).unwrap();
    assert_eq!(e.icon_name, Some(b("app-a")));
    assert_eq!(e.filename, b("a.desktop"));
}

#[test]
fn marker_edits_on_existing_files() {
    assert_eq!(
        hide_content(Some(b("[Desktop Entry]\nNoDisplay=false\n"))),
        b("[Desktop Entry]\nNoDisplay=true\n")
    );
    assert_eq!(hide_content(Some(b("[Desktop Entry]\nName=X"))), b("[Desktop Entry]\nName=X\nNoDisplay=true"));
    assert_eq!(
        show_edit(b"[Desktop Entry]\nName=X\nNoDisplay=true\n"),
        MarkerEdit::Write(b("[Desktop Entry]\nName=X\nNoDisplay=false\n"))
    );
    assert_eq!(show_edit(b"  NoDisplay=true  \n"), MarkerEdit::Remove);
    assert_eq!(show_edit(b"Name=X\n"), MarkerEdit::Keep);
}

#[test]
fn remove_drops_one_entry() {
    let mut entries = DesktopEntries::new(&vec![file("a.desktop", "/r", "Name=A\nExec=a\n")], empty_loader());
    entries.remove(9);
    assert_eq!(entries.all_len(), 4);
    entries.remove(3);
    assert_eq!(entries.all_len(), 3);
}
