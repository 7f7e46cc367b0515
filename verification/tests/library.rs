use std::collections::VecDeque;

use system_monitor::launcher::{launch_failure, task_invocation, tokenize};
use system_monitor::process_monitor::ProcessRow;
use system_monitor::services::{
    control_service, fetch_services, listing_command, run_and_collect, CommandOutcome, Platform,
    ServiceAction, ServiceMonitor,
};
use system_monitor::startup::{
    desktop_entry_content, desktop_file_name, find_desktop_file, parse_desktop_file,
    registry_fetch_entries, registry_hive, registry_removal_allowed, set_hidden,
    system_autostart_dirs, user_autostart_dir, xdg_enable_target, xdg_fetch_entries,
    xdg_removal_target, DesktopFile, EnableTarget, Hive, RegistryValue, StartupSource,
};
use system_monitor::state::{
    human_bytes, primary_temperature, push_capped, reading_of, SensorReading, ServiceRefreshClock,
    HISTORY_LEN,
};
use system_monitor::ui_shared::{Shared, SortKey};
use system_monitor::ui_widgets::{row_background, weighted_col_widths};

/// The float computation that `human_bytes` stands for.
fn float_human_bytes(bytes: u64) -> String {
    const UNITS: [&str; 5] = ["B", "KB", "MB", "GB", "TB"];
    let mut value = bytes as f64;
    let mut unit_idx = 0;
    while value >= 1024.0 && unit_idx < UNITS.len() - 1 {
        value /= 1024.0;
        unit_idx += 1;
    }
    format!("{value:.1} {}", UNITS[unit_idx])
}

#[test]
fn human_bytes_matches_float_formatting() {
    let mut samples: Vec<u64> = vec![
        0,
        1,
        9,
        10,
        1023,
        1024,
        1025,
        1280,
        1331,
        1536,
        1587,
        1638,
        10239,
        10240,
        1048575,
        1048576,
        1572864,
        1073741823,
        1073741824,
        1099511627775,
        1099511627776,
        1125899906842624,
        (1u64 << 53) - 1,
        1u64 << 53,
        (1u64 << 53) + 1,
        (1u64 << 53) + 3,
        (1u64 << 60) + 12345,
        u64::MAX - 1,
        u64::MAX,
    ];
    let mut x: u64 = 0x9e37_79b9_7f4a_7c15;
    for _ in 0..20000 {
        x ^= x << 13;
        x ^= x >> 7;
        x ^= x << 17;
        samples.push(x >> (x % 64));
        samples.push(x % 5000);
        samples.push((x % 4096) * 256 + 128);
    }
    for b in samples {
        assert_eq!(human_bytes(b), float_human_bytes(b), "bytes = {b}");
    }
}

#[test]
fn human_bytes_examples() {
    assert_eq!(human_bytes(0), "0.0 B");
    assert_eq!(human_bytes(1023), "1023.0 B");
    assert_eq!(human_bytes(1536), "1.5 KB");
    assert_eq!(human_bytes(1048576), "1.0 MB");
}

#[test]
fn tokenize_keeps_quoted_path_whole() {
    let t = tokenize("\"C:\\Program Files\\App\\app.exe\" --flag");
    assert_eq!(t, vec!["C:\\Program Files\\App\\app.exe".to_string(), "--flag".to_string()]);
    assert_eq!(tokenize("  ls   -la  /tmp "), vec!["ls", "-la", "/tmp"]);
    assert!(tokenize("   ").is_empty());
    assert_eq!(tokenize("a\"b c\"d"), vec!["ab cd"]);
}

#[test]
fn task_invocation_splits_program_and_arguments() {
    let inv = task_invocation("  firefox --new-window  ").unwrap();
    assert_eq!(inv.program, "firefox");
    assert_eq!(inv.args, vec!["--new-window"]);
    assert_eq!(task_invocation("  ").unwrap_err(), "Aucune commande saisie.");
    assert_eq!(launch_failure("foo", "not found"), "Impossible de lancer \"foo\" : not found");
}

const SYSTEMCTL: &str = "accounts-daemon.service loaded active running Accounts Service\n\
apparmor.service        loaded active exited  Load AppArmor profiles\n\
broken\n\
cups.service.service loaded inactive dead\r\n";

#[test]
fn linux_listing_is_parsed() {
    let rows = fetch_services(Platform::Linux, Some(SYSTEMCTL.as_bytes()));
    assert_eq!(rows.len(), 3);
    assert_eq!(rows[0].name, "accounts-daemon");
    assert_eq!(rows[0].state, "active (running)");
    assert_eq!(rows[0].description, "Accounts Service");
    assert_eq!(rows[1].name, "apparmor");
    assert_eq!(rows[1].state, "active (exited)");
    assert_eq!(rows[1].description, "Load AppArmor profiles");
    assert_eq!(rows[2].name, "cups");
    assert_eq!(rows[2].state, "inactive (dead)");
    assert_eq!(rows[2].description, "");
    assert!(fetch_services(Platform::Linux, None).is_empty());
    assert!(fetch_services(Platform::Other, Some(SYSTEMCTL.as_bytes())).is_empty());
}

const SC_QUERY: &str = "\r\nSERVICE_NAME: AarSvc_1\r\nDISPLAY_NAME: Agent Activation Runtime\r\n        TYPE               : 60  USER_SHARE_PROCESS TEMPLATE\r\n        STATE              : 1  STOPPED\r\n        WIN32_EXIT_CODE    : 1077  (0x435)\r\n\r\nSERVICE_NAME: Plain\r\n        STATE              : 4  RUNNING\r\nSTATE : odd\r\n";

#[test]
fn windows_listing_is_parsed() {
    let rows = fetch_services(Platform::Windows, Some(SC_QUERY.as_bytes()));
    assert_eq!(rows.len(), 2);
    assert_eq!(rows[0].name, "AarSvc_1");
    assert_eq!(rows[0].state, "STOPPED");
    assert_eq!(rows[0].description, "Agent Activation Runtime");
    assert_eq!(rows[1].name, "Plain");
    assert_eq!(rows[1].state, "RUNNING");
    assert_eq!(rows[1].description, "Plain");
}

#[test]
fn service_monitor_refreshes() {
    let mut m = ServiceMonitor::new(Platform::Linux, Some(SYSTEMCTL.as_bytes()));
    assert_eq!(m.services().len(), 3);
    m.refresh(Platform::Linux, None);
    assert!(m.services().is_empty());
}

#[test]
fn control_plans() {
    let p = control_service(Platform::Linux, "cups", ServiceAction::Restart).unwrap();
    assert_eq!(p.len(), 1);
    assert_eq!(p[0].program, "systemctl");
    assert_eq!(p[0].args, vec!["restart", "cups"]);
    let p = control_service(Platform::Windows, "Spooler", ServiceAction::Restart).unwrap();
    assert_eq!(p.len(), 2);
    assert_eq!(p[0].args, vec!["stop", "Spooler"]);
    assert_eq!(p[1].args, vec!["start", "Spooler"]);
    let e = control_service(Platform::Other, "x", ServiceAction::Start).unwrap_err();
    assert_eq!(e, "Contrôle de service non supporté sur cette plateforme.");
    let l = listing_command(Platform::Linux).unwrap();
    assert_eq!(l.program, "systemctl");
    assert_eq!(
        l.args,
        vec!["list-units", "--type=service", "--all", "--plain", "--no-legend", "--no-pager"]
    );
    assert!(listing_command(Platform::Other).is_none());
}

#[test]
fn command_outcomes() {
    let ok = CommandOutcome::Exited { success: true, code: Some(0), stdout: vec![], stderr: vec![] };
    assert_eq!(run_and_collect("sc", &ok), Ok(()));
    let err = CommandOutcome::Exited {
        success: false,
        code: Some(5),
        stdout: b"out".to_vec(),
        stderr: b"  Access denied\n".to_vec(),
    };
    assert_eq!(run_and_collect("sc", &err), Err("Access denied".to_string()));
    let out = CommandOutcome::Exited {
        success: false,
        code: Some(5),
        stdout: b" only stdout ".to_vec(),
        stderr: b"  \n".to_vec(),
    };
    assert_eq!(run_and_collect("sc", &out), Err("only stdout".to_string()));
    let code = CommandOutcome::Exited { success: false, code: Some(-3), stdout: vec![], stderr: vec![] };
    assert_eq!(run_and_collect("systemctl", &code), Err("systemctl a échoué (code Some(-3))".to_string()));
    let none = CommandOutcome::Exited { success: false, code: None, stdout: vec![], stderr: vec![] };
    assert_eq!(run_and_collect("systemctl", &none), Err("systemctl a échoué (code None)".to_string()));
    let ns = CommandOutcome::NotStarted { error: "No such file".to_string() };
    assert_eq!(run_and_collect("sc", &ns), Err("Impossible de lancer sc : No such file".to_string()));
}

const DESKTOP: &str = "[Desktop Entry]\nType=Application\nName=Foo App\nExec=/usr/bin/foo --bar\nHidden=False\n[Other]\nName=Ignored\n";

#[test]
fn desktop_files_are_parsed() {
    assert_eq!(
        parse_desktop_file(DESKTOP, "foo"),
        Some(("Foo App".to_string(), "/usr/bin/foo --bar".to_string(), true))
    );
    let hidden = "[Desktop Entry]\nExec=x\nX-GNOME-Autostart-enabled=FALSE\n";
    assert_eq!(parse_desktop_file(hidden, "stem"), Some(("stem".to_string(), "x".to_string(), false)));
    assert_eq!(parse_desktop_file("[Desktop Entry]\nName=n\n", "s"), None);
    assert_eq!(parse_desktop_file("Exec=outside\n", "s"), None);
}

#[test]
fn hidden_line_is_rewritten() {
    assert_eq!(
        set_hidden("[Desktop Entry]\nName=a\nExec=b\n", false),
        "[Desktop Entry]\nHidden=true\nName=a\nExec=b\n"
    );
    assert_eq!(set_hidden("Name=a\n  Hidden=true\r\nExec=b", true), "Name=a\nHidden=false\nExec=b\n");
    assert_eq!(set_hidden("Name=a", false), "Name=a\nHidden=true\n");
}

#[test]
fn added_entries() {
    assert_eq!(desktop_file_name("My App!"), "MyApp.desktop");
    assert_eq!(desktop_file_name("!!!"), "systemmonitor-entry.desktop");
    let c = desktop_entry_content("My App", "/opt/app --x");
    assert_eq!(
        c,
        "[Desktop Entry]\nType=Application\nName=My App\nExec=/opt/app --x\nHidden=false\nX-GNOME-Autostart-enabled=true\n"
    );
    assert_eq!(
        parse_desktop_file(&c, "MyApp"),
        Some(("My App".to_string(), "/opt/app --x".to_string(), true))
    );
}

fn file(name: &str, content: Option<&str>) -> DesktopFile {
    DesktopFile { file_name: name.to_string(), name_is_utf8: true, content: content.map(|c| c.to_string()) }
}

#[test]
fn user_files_mask_system_files() {
    let user = vec![
        file("foo.desktop", Some("[Desktop Entry]\nName=Foo\nExec=foo\nHidden=true\n")),
        file("notes.txt", Some("[Desktop Entry]\nExec=no\n")),
    ];
    let system = vec![
        file("foo.desktop", Some("[Desktop Entry]\nName=Foo\nExec=foo\n")),
        file("bar.desktop", Some("[Desktop Entry]\nExec=bar\n")),
        file(".desktop", Some("[Desktop Entry]\nExec=hidden-name\n")),
    ];
    let e = xdg_fetch_entries(&user, &system);
    assert_eq!(e.len(), 2);
    assert_eq!(e[0].name, "Foo");
    assert_eq!(e[0].source, StartupSource::UserAutostart);
    assert!(!e[0].enabled);
    assert_eq!(e[1].name, "bar");
    assert_eq!(e[1].source, StartupSource::SystemAutostart);
    assert_eq!(find_desktop_file(&system, "bar"), Some(1));
    assert_eq!(xdg_enable_target("bar", StartupSource::SystemAutostart, &user, &system), Ok(EnableTarget::CopyOfSystemFile(1)));
    assert_eq!(
        xdg_enable_target("nope", StartupSource::UserAutostart, &user, &system),
        Err("Fichier .desktop introuvable pour \"nope\".".to_string())
    );
    assert_eq!(xdg_removal_target("Foo", StartupSource::UserAutostart, &user), Ok(0));
    assert!(xdg_removal_target("bar", StartupSource::SystemAutostart, &user).is_err());
}

#[test]
fn registry_entries_and_rules() {
    let v = |n: &str, c: &str| RegistryValue { name: n.to_string(), command: c.to_string() };
    let e = registry_fetch_entries(&[v("a", "a.exe")], &[v("b", "b.exe")], &[v("c", "c.exe")]);
    assert_eq!(e.len(), 3);
    assert_eq!((e[0].source, e[0].enabled), (StartupSource::UserRegistry, true));
    assert_eq!((e[1].source, e[1].enabled), (StartupSource::MachineRegistry, true));
    assert_eq!((e[2].source, e[2].enabled), (StartupSource::UserRegistry, false));
    assert_eq!(registry_hive(StartupSource::MachineRegistry), Ok(Hive::LocalMachine));
    assert!(registry_hive(StartupSource::UserAutostart).is_err());
    assert!(registry_removal_allowed(StartupSource::UserRegistry).is_ok());
    assert!(registry_removal_allowed(StartupSource::MachineRegistry).is_err());
}

#[test]
fn autostart_directories() {
    assert_eq!(user_autostart_dir(Some("/x/conf"), Some("/home/u")), "/x/conf/autostart");
    assert_eq!(user_autostart_dir(None, Some("/home/u/")), "/home/u/.config/autostart");
    assert_eq!(user_autostart_dir(None, None), "./.config/autostart");
    assert_eq!(system_autostart_dirs(None), vec!["/etc/xdg/autostart"]);
    assert_eq!(system_autostart_dirs(Some("/a:/b/:")), vec!["/a/autostart", "/b/autostart", "autostart"]);
}

#[test]
fn histories_keep_the_last_values() {
    let mut h: VecDeque<f64> = VecDeque::new();
    for i in 0..130 {
        push_capped(&mut h, i as f64);
    }
    assert_eq!(h.len(), HISTORY_LEN);
    assert_eq!(h.front().copied(), Some(10.0));
    assert_eq!(h.back().copied(), Some(129.0));
}

#[test]
fn services_listed_every_fourth_tick() {
    let mut c = ServiceRefreshClock::new();
    let ticks: Vec<bool> = (0..8).map(|_| c.tick()).collect();
    assert_eq!(ticks, vec![false, false, false, true, false, false, false, true]);
}

fn reading(label: &str, t: f32) -> SensorReading {
    SensorReading { label: label.to_string(), temperature: t.to_bits(), max: None, critical: None }
}

#[test]
fn primary_temperature_prefers_processor() {
    let r = vec![reading("acpitz", 45.0), reading("Package id 0", 52.0), reading("nvme", 60.0)];
    assert_eq!(primary_temperature(&r).map(f32::from_bits), Some(52.0));
    let r = vec![reading("acpitz", 45.0), reading("nvme", 60.0), reading("CPU", 0.0)];
    assert_eq!(primary_temperature(&r).map(f32::from_bits), Some(60.0));
    let r = vec![reading("x", 0.0), reading("y", f32::NAN)];
    assert_eq!(primary_temperature(&r), None);
    let m = reading_of("s".to_string(), Some(40.0f32.to_bits()), Some(0.0f32.to_bits()), None).unwrap();
    assert_eq!(m.max, None);
    assert!(reading_of("s".to_string(), None, None, None).is_none());
}

fn proc_row(pid: u32, name: &str, cpu: f32, mem: u64) -> ProcessRow {
    ProcessRow { pid, name: name.to_string(), cpu_usage: cpu.to_bits(), memory_bytes: mem, status: "Run".to_string() }
}

#[test]
fn processes_filtered_and_sorted() {
    let ps = vec![
        proc_row(1, "init", 0.5, 100),
        proc_row(2, "Firefox", 12.0, 900),
        proc_row(3, "firefox-helper", 3.0, 300),
        proc_row(4, "bash", 0.5, 50),
    ];
    let mut sh = Shared::new();
    sh.recompute_rows(&ps);
    let pids: Vec<u32> = sh.filtered_rows.iter().map(|r| r.pid).collect();
    assert_eq!(pids, vec![2, 3, 1, 4]);
    sh.filter_text = "FIRE".to_string();
    sh.recompute_rows(&ps);
    let pids: Vec<u32> = sh.filtered_rows.iter().map(|r| r.pid).collect();
    assert_eq!(pids, vec![2, 3]);
    sh.filter_text.clear();
    assert!(sh.click_column(0));
    assert_eq!(sh.sort_key, SortKey::Name);
    assert!(sh.sort_desc);
    assert!(sh.click_column(0));
    assert!(!sh.sort_desc);
    sh.recompute_rows(&ps);
    let names: Vec<&str> = sh.filtered_rows.iter().map(|r| r.name.as_str()).collect();
    assert_eq!(names, vec!["Firefox", "bash", "firefox-helper", "init"]);
    assert!(!sh.click_column(7));
    assert_eq!(sh.sort_arrow(0), Some(" ▲"));
    assert_eq!(sh.sort_arrow(1), None);
}

#[test]
fn column_widths_by_weight() {
    assert_eq!(weighted_col_widths(1000, &[4, 2, 2, 2, 2]), Some(vec![333, 166, 166, 166, 169]));
    assert_eq!(weighted_col_widths(30, &[1, 1]), Some(vec![20, 20]));
    assert_eq!(weighted_col_widths(100, &[0, 0]), None);
    assert_eq!(row_background(3, false), (0x21, 0x22, 0x2c));
    assert_eq!(row_background(3, true), (0xbd, 0x93, 0xf9));
}
