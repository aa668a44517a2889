use voxara_scan::shell::{command_matches, context_menu_command, ensure_window_bounds, is_context_menu_command_valid, startup_candidate, MonitorArea, WindowPlacement};

fn args(v: &[&str]) -> Vec<String> {
    v.iter().map(|s| s.to_string()).collect()
}

#[test]
fn startup_argument_selection() {
    assert_eq!(startup_candidate(&args(&["app"])), None);
    assert_eq!(startup_candidate(&args(&["app", "--flag"])), None);
    assert_eq!(startup_candidate(&args(&["app", "C:\\data", "x"])), Some("C:\\data".to_string()));
}

#[test]
fn context_menu_commands() {
    assert_eq!(context_menu_command("Software\\Classes\\Directory\\shell\\Voxara", "C:\\v.exe"), "\"C:\\v.exe\" \"%1\"");
    assert_eq!(context_menu_command("Software\\Classes\\directory\\Background\\shell\\Voxara", "C:\\v.exe"), "\"C:\\v.exe\" \"%V\"");
}

#[test]
fn context_menu_validation() {
    let dir = "Software\\Classes\\Directory\\shell\\Voxara";
    let bg = "Software\\Classes\\directory\\Background\\shell\\Voxara";
    assert!(is_context_menu_command_valid(dir, "\"C:\\V.EXE\" \"%1\"", "c:\\v.exe"));
    assert!(!is_context_menu_command_valid(dir, "\"C:\\v.exe\" \"%V\"", "C:\\v.exe"));
    assert!(is_context_menu_command_valid(bg, "\"C:\\v.exe\" \"%V\"", "C:\\v.exe"));
    assert!(!is_context_menu_command_valid(bg, "\"C:\\other.exe\" \"%V\"", "C:\\v.exe"));
}

#[test]
fn window_bounds() {
    let m = MonitorArea { x: 0, y: 0, width: 1920, height: 1080 };
    let on = WindowPlacement { x: 10, y: 10, width: 800, height: 600 };
    assert_eq!(ensure_window_bounds(on, &vec![m]), None);
    assert_eq!(ensure_window_bounds(on, &vec![]), None);
    let off = WindowPlacement { x: 3000, y: -50, width: 2500, height: 600 };
    assert_eq!(
        ensure_window_bounds(off, &vec![m]),
        Some(WindowPlacement { x: 0, y: 0, width: 1920, height: 600 })
    );
    let right = WindowPlacement { x: 1500, y: 700, width: 800, height: 600 };
    assert_eq!(
        ensure_window_bounds(right, &vec![m]),
        Some(WindowPlacement { x: 1120, y: 480, width: 800, height: 600 })
    );
}

#[test]
fn lowered_command_check() {
    let bg = "Software\\Classes\\directory\\Background\\shell\\Voxara";
    assert!(command_matches(bg, "\"c:\\v.exe\" \"%v\"", "c:\\v.exe"));
    assert!(!command_matches("Software\\Classes\\Drive\\shell\\Voxara", "\"c:\\v.exe\" \"%v\"", "c:\\v.exe"));
}
