use system_monitor::startup::{desktop_entry_content, parse_desktop_file, set_hidden, StartupEntry, StartupSource};
use system_monitor::services::{action_result, control_service, CommandOutcome, Platform, ServiceAction, ServiceRow};
use system_monitor::state::{reading_of, TickState, HISTORY_LEN};
use system_monitor::ui_widgets::InitialWidths;
use system_monitor::ieee::{compare_values, Order3};
use system_monitor::process_monitor::ProcessRow;
use system_monitor::task_manager::{header_click, header_text, sort_processes, SortColumn};
use system_monitor::ui_shared::{compare_rows, filter_processes, sort_rows, Shared, SortKey};
use system_monitor::ui_text::{
    action_failed_text, add_failed_alert, add_failed_text, enabled_text, entry_added_text,
    entry_fields_missing, entry_removed_text, fields_required_text, no_entry_selected_text,
    no_service_selected_text, process_selection_text, ram_text, remove_failed_alert, remove_failed_text,
    run_task_alert, service_action_alert, service_action_ok_text, service_cell_text,
    service_selection_text, startup_action_alert, startup_cell_text, startup_selection_text,
    startup_toggle_ok_text, used_space,
};
use system_monitor::ui_widgets::{header_label, initial_widths_ready, prompt_height, row_text_color};

fn row(pid: u32, name: &str, cpu: f32, mem: u64) -> ProcessRow {
    ProcessRow { pid, name: name.to_string(), cpu_usage: cpu.to_bits(), memory_bytes: mem, status: "Sleep".to_string() }
}

fn pids(rows: &[ProcessRow]) -> Vec<u32> {
    rows.iter().map(|r| r.pid).collect()
}

#[test]
fn cell_texts() {
    let s = ServiceRow { name: "cron".to_string(), state: "active (running)".to_string(), description: "Jobs".to_string() };
    assert_eq!(service_cell_text(&s, 0), "cron");
    assert_eq!(service_cell_text(&s, 1), "active (running)");
    assert_eq!(service_cell_text(&s, 2), "Jobs");
    assert_eq!(service_cell_text(&s, 3), "");
    let e = StartupEntry {
        name: "Syncthing".to_string(),
        command: "syncthing serve".to_string(),
        source: StartupSource::SystemAutostart,
        enabled: false,
    };
    assert_eq!(startup_cell_text(&e, 0), "Syncthing");
    assert_eq!(startup_cell_text(&e, 1), "syncthing serve");
    assert_eq!(startup_cell_text(&e, 2), "Autostart (système)");
    assert_eq!(startup_cell_text(&e, 3), "Désactivé");
    assert_eq!(startup_cell_text(&e, -1), "");
    assert_eq!(enabled_text(true), "Activé");
}

#[test]
fn status_and_alert_texts() {
    assert_eq!(process_selection_text(4242, "bash"), "Sélection : PID 4242 (bash)");
    assert_eq!(process_selection_text(0, "idle"), "Sélection : PID 0 (idle)");
    assert_eq!(service_selection_text("cron", "RUNNING"), "Sélection : cron (RUNNING)");
    assert_eq!(
        startup_selection_text("App", StartupSource::UserRegistry, true),
        "Sélection : App (Registre (HKCU)) -- Activé"
    );
    assert_eq!(no_service_selected_text(), "Sélectionne d'abord un service dans la liste.");
    assert_eq!(no_entry_selected_text(), "Sélectionne d'abord une entrée dans la liste.");
    assert_eq!(service_action_ok_text("cron"), "OK : action appliquée sur cron.");
    assert_eq!(action_failed_text("cron", "refus"), "Échec sur cron : refus");
    assert_eq!(service_action_alert("cron", "refus"), "Échec de l'action sur le service \"cron\" :\n\nrefus");
    assert_eq!(startup_toggle_ok_text("App", true), "OK : App activé.");
    assert_eq!(startup_toggle_ok_text("App", false), "OK : App désactivé.");
    assert_eq!(startup_action_alert("App", "e"), "Échec de l'action sur \"App\" :\n\ne");
    assert_eq!(fields_required_text(), "Nom et commande sont obligatoires.");
    assert_eq!(entry_added_text("App"), "OK : \"App\" ajouté au démarrage.");
    assert_eq!(add_failed_text("e"), "Échec de l'ajout : e");
    assert_eq!(add_failed_alert("App", "e"), "Échec de l'ajout de \"App\" :\n\ne");
    assert_eq!(entry_removed_text("App"), "OK : \"App\" supprimé.");
    assert_eq!(remove_failed_text("e"), "Échec de la suppression : e");
    assert_eq!(remove_failed_alert("App", "e"), "Échec de la suppression de \"App\" :\n\ne");
    assert_eq!(run_task_alert("introuvable"), "Erreur : introuvable");
    assert_eq!(ram_text(1536, 1048576), "RAM : 1.5 KB / 1.0 MB");
}

#[test]
fn missing_fields_and_used_space() {
    assert!(entry_fields_missing("  ", "app"));
    assert!(entry_fields_missing("App", "\t\n"));
    assert!(!entry_fields_missing(" App ", "app --x"));
    assert_eq!(used_space(100, 40), 60);
    assert_eq!(used_space(40, 100), 0);
}

#[test]
fn widget_helpers() {
    assert_eq!(header_label("PID", Some(" ▼")), "PID ▼");
    assert_eq!(header_label("PID", None), "PID");
    assert_eq!(prompt_height(2), 188);
    assert!(initial_widths_ready(&[200, 300], 150, 5));
    assert!(!initial_widths_ready(&[200, 100], 150, 5));
    assert!(initial_widths_ready(&[200, 100], 150, 0));
    assert_eq!(row_text_color(true), (0x1e, 0x1f, 0x29));
}

#[test]
fn sort_is_stable_and_reversible() {
    let rs = vec![row(5, "b", 1.0, 10), row(2, "a", 1.0, 30), row(9, "c", 7.5, 10), row(1, "a", 0.0, 20)];
    // Equal CPU usages keep their order, ascending and descending.
    assert_eq!(pids(&sort_rows(&rs, SortKey::Cpu, false)), vec![1, 5, 2, 9]);
    assert_eq!(pids(&sort_rows(&rs, SortKey::Cpu, true)), vec![9, 5, 2, 1]);
    assert_eq!(pids(&sort_rows(&rs, SortKey::Name, false)), vec![2, 1, 5, 9]);
    assert_eq!(pids(&sort_rows(&rs, SortKey::Memory, true)), vec![2, 1, 5, 9]);
    assert_eq!(pids(&sort_rows(&rs, SortKey::Pid, false)), vec![1, 2, 5, 9]);
    assert_eq!(pids(&sort_rows(&[], SortKey::Pid, false)), Vec::<u32>::new());
}

#[test]
fn names_compare_by_code_points() {
    let a = row(1, "Zed", 0.0, 0);
    let b = row(2, "alpha", 0.0, 0);
    // Upper case letters come before lower case ones.
    assert_eq!(pids(&sort_rows(&[b.clone(), a.clone()], SortKey::Name, false)), vec![1, 2]);
    assert!(matches!(compare_rows(SortKey::Name, false, &a, &b), Order3::Less));
    assert!(matches!(compare_rows(SortKey::Name, true, &a, &b), Order3::Greater));
}

#[test]
fn cpu_values_compare_as_floats() {
    assert!(matches!(compare_values(1.5f32.to_bits(), 2.0f32.to_bits()), Some(Order3::Less)));
    assert!(matches!(compare_values((-0.0f32).to_bits(), 0.0f32.to_bits()), Some(Order3::Equal)));
    assert!(matches!(compare_values(f32::NAN.to_bits(), f32::INFINITY.to_bits()), None));
    assert!(matches!(compare_values(3.0f32.to_bits(), (-3.0f32).to_bits()), Some(Order3::Greater)));
}

#[test]
fn filter_keeps_order() {
    let rs = vec![row(1, "Xorg", 0.0, 0), row(2, "bash", 0.0, 0), row(3, "xterm", 0.0, 0)];
    assert_eq!(pids(&filter_processes(&rs, "x")), vec![1, 3]);
    assert_eq!(pids(&filter_processes(&rs, "XT")), vec![3]);
    assert_eq!(pids(&filter_processes(&rs, "")), vec![1, 2, 3]);
    assert!(filter_processes(&rs, "zsh").is_empty());
}

#[test]
fn services_filtered_by_name_or_description() {
    let svc = |n: &str, d: &str| ServiceRow { name: n.to_string(), state: "RUNNING".to_string(), description: d.to_string() };
    let all = vec![svc("sshd", "OpenSSH server"), svc("cron", "Periodic jobs"), svc("cups", "Printing")];
    let mut sh = Shared::new();
    sh.service_filter_text = "SSH".to_string();
    sh.recompute_services(&all);
    let names: Vec<&str> = sh.filtered_services.iter().map(|s| s.name.as_str()).collect();
    assert_eq!(names, vec!["sshd"]);
    sh.service_filter_text = "jobs".to_string();
    sh.recompute_services(&all);
    let names: Vec<&str> = sh.filtered_services.iter().map(|s| s.name.as_str()).collect();
    assert_eq!(names, vec!["cron"]);
}

#[test]
fn selecting_a_process() {
    let rs = vec![row(7, "vim", 0.0, 0), row(8, "top", 2.0, 0)];
    let mut sh = Shared::new();
    sh.recompute_rows(&rs);
    let picked = sh.select_process(0).map(|r| r.pid);
    assert_eq!(picked, Some(8));
    assert_eq!(sh.selected_pid, Some(8));
    assert!(sh.select_process(5).is_none());
    assert_eq!(sh.selected_pid, Some(8));
}

#[test]
fn header_clicks_toggle_then_switch() {
    let mut sh = Shared::new();
    assert_eq!(sh.sort_key, SortKey::Cpu);
    assert!(sh.sort_desc);
    assert_eq!(sh.sort_arrow(2), Some(" ▼"));
    assert!(sh.click_column(2));
    assert!(!sh.sort_desc);
    assert!(sh.click_column(3));
    assert_eq!(sh.sort_key, SortKey::Memory);
    assert!(sh.sort_desc);
    assert_eq!(sh.sort_arrow(2), None);
    assert!(!sh.click_column(5));
    assert_eq!(sh.sort_key, SortKey::Memory);
}

#[test]
fn task_manager_sorts_ascending_then_reverses() {
    let rs = vec![row(3, "b", 1.0, 5), row(1, "a", 1.0, 5), row(2, "c", 0.5, 9)];
    assert_eq!(pids(&sort_processes(&rs, SortColumn::Pid, false)), vec![1, 2, 3]);
    assert_eq!(pids(&sort_processes(&rs, SortColumn::Pid, true)), vec![3, 2, 1]);
    // Descending is the ascending order reversed: equal keys swap too.
    assert_eq!(pids(&sort_processes(&rs, SortColumn::Cpu, false)), vec![2, 3, 1]);
    assert_eq!(pids(&sort_processes(&rs, SortColumn::Cpu, true)), vec![1, 3, 2]);
    assert_eq!(pids(&sort_processes(&rs, SortColumn::Memory, true)), vec![2, 1, 3]);
    assert_eq!(pids(&sort_processes(&rs, SortColumn::Name, false)), vec![1, 3, 2]);
}

#[test]
fn task_manager_headers() {
    assert_eq!(header_click(SortColumn::Cpu, true, SortColumn::Cpu), (SortColumn::Cpu, false));
    assert_eq!(header_click(SortColumn::Cpu, false, SortColumn::Name), (SortColumn::Name, true));
    assert_eq!(header_text("CPU %", SortColumn::Cpu, true, SortColumn::Cpu), "CPU % ▼");
    assert_eq!(header_text("CPU %", SortColumn::Cpu, false, SortColumn::Cpu), "CPU % ▲");
    assert_eq!(header_text("PID", SortColumn::Cpu, false, SortColumn::Pid), "PID");
}

#[test]
fn both_disabling_keys_are_honoured_in_any_order() {
    let later_hidden_false = "[Desktop Entry]\nExec=foo\nX-GNOME-Autostart-enabled=false\nHidden=false\n";
    assert_eq!(parse_desktop_file(later_hidden_false, "stem"), Some(("stem".to_string(), "foo".to_string(), false)));
    let earlier_hidden_false = "[Desktop Entry]\nExec=foo\nHidden=false\nX-GNOME-Autostart-enabled=false\n";
    assert_eq!(parse_desktop_file(earlier_hidden_false, "s").map(|e| e.2), Some(false));
    let gnome_true = "[Desktop Entry]\nExec=foo\nX-GNOME-Autostart-enabled=true\nHidden=false\n";
    assert_eq!(parse_desktop_file(gnome_true, "s").map(|e| e.2), Some(true));
    let last_hidden_wins = "[Desktop Entry]\nExec=foo\nHidden=true\nHidden=false\n";
    assert_eq!(parse_desktop_file(last_hidden_wins, "s").map(|e| e.2), Some(true));
}

#[test]
fn toggling_reads_back() {
    let added = desktop_entry_content("My App", "/opt/app --x");
    let off = set_hidden(&added, false);
    assert_eq!(parse_desktop_file(&off, "s"), Some(("My App".to_string(), "/opt/app --x".to_string(), false)));
    let on = set_hidden(&off, true);
    assert_eq!(parse_desktop_file(&on, "s"), Some(("My App".to_string(), "/opt/app --x".to_string(), true)));
    let crlf = "[Desktop Entry]\r\nName=A\r\nHidden=true\r\nExec=a\r\n[Other]\r\nName=B\r\n";
    let on = set_hidden(crlf, true);
    assert_eq!(parse_desktop_file(&on, "s"), Some(("A".to_string(), "a".to_string(), true)));
    // A GNOME key that disables the entry still does after enabling.
    let gnome_off = "[Desktop Entry]\nExec=a\nX-GNOME-Autostart-enabled=false\n";
    assert_eq!(parse_desktop_file(&set_hidden(gnome_off, true), "s").map(|e| e.2), Some(false));
}

#[test]
fn an_action_reports_its_last_step() {
    let plan = control_service(Platform::Windows, "Spooler", ServiceAction::Restart).unwrap();
    let failed = CommandOutcome::Exited { success: false, code: Some(1062), stdout: vec![], stderr: b"not started".to_vec() };
    let ok = CommandOutcome::Exited { success: true, code: Some(0), stdout: vec![], stderr: vec![] };
    let mut steps = plan.into_iter();
    let ran = vec![(steps.next().unwrap(), failed), (steps.next().unwrap(), ok)];
    assert_eq!(action_result(&ran), Ok(()));
    let plan = control_service(Platform::Windows, "Spooler", ServiceAction::Stop).unwrap();
    let not_run = CommandOutcome::NotStarted { error: "absent".to_string() };
    let ran: Vec<_> = plan.into_iter().map(|i| (i, not_run_clone(&not_run))).collect();
    assert_eq!(action_result(&ran), Err("Impossible de lancer sc : absent".to_string()));
    assert_eq!(action_result(&[]), Ok(()));
}

fn not_run_clone(o: &CommandOutcome) -> CommandOutcome {
    match o {
        CommandOutcome::NotStarted { error } => {
            CommandOutcome::NotStarted { error: error.clone() }
        }
        _ => unreachable!(),
    }
}

#[test]
fn ticks_record_histories_and_list_services_every_fourth() {
    let mut t = TickState::new();
    let cpu_core = reading_of("coretemp Package id 0".to_string(), Some(55.0f32.to_bits()), None, None).unwrap();
    let mut listed = Vec::new();
    for i in 0..(HISTORY_LEN as u32 + 5) {
        let readings = if i % 2 == 0 { vec![cpu_core.clone()] } else { vec![] };
        listed.push(t.tick((i as f32).to_bits(), &readings));
    }
    assert_eq!(&listed[..8], &[false, false, false, true, false, false, false, true]);
    assert_eq!(t.cpu_history.len(), HISTORY_LEN);
    assert_eq!(f32::from_bits(*t.cpu_history.front().unwrap()), 5.0);
    assert_eq!(f32::from_bits(*t.cpu_history.back().unwrap()), (HISTORY_LEN + 4) as f32);
    assert_eq!(t.temp_history.len(), (HISTORY_LEN + 5 + 1) / 2);
    assert!(t.temp_history.iter().all(|b| f32::from_bits(*b) == 55.0));
}

#[test]
fn initial_widths_applied_once() {
    let mut s = InitialWidths::new(2);
    assert!(!s.observe(&[100, 300], 150));
    assert!(s.pending());
    assert!(!s.observe(&[100, 300], 150));
    assert!(s.observe(&[100, 300], 150));
    assert!(!s.pending());
    assert!(!s.observe(&[400, 300], 150));
    let mut s = InitialWidths::new(5);
    assert!(s.observe(&[400, 300], 150));
    assert!(!s.observe(&[400, 300], 150));
}

#[test]
fn single_row_with_nan_cpu_sorts() {
    let rs = vec![row(1, "a", f32::NAN, 0)];
    assert_eq!(pids(&sort_processes(&rs, SortColumn::Cpu, true)), vec![1]);
    assert_eq!(prompt_height(0), 120);
}
