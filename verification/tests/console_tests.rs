use worst_minecraft_launcher::console::{
    append_log, can_install, clock_text, install_finished, queue_mod, slug,
};
use worst_minecraft_launcher::mods::{ModReference, Provider};

#[test]
fn slug_lowercases_and_dashes() {
    assert_eq!(slug("Fabric 1.21.4"), "fabric-1-21-4");
    assert_eq!(slug("Vanilla 1.21.4"), "vanilla-1-21-4");
    assert_eq!(slug("Ünïcode_Name!"), "-n-code-name-");
    assert_eq!(slug(""), "");
}

#[test]
fn clock_text_is_utc_hours_minutes_seconds() {
    assert_eq!(clock_text(0), "00:00:00");
    assert_eq!(clock_text(3661), "01:01:01");
    assert_eq!(clock_text(86399), "23:59:59");
    assert_eq!(clock_text(86400 + 45296), "12:34:56");
}

#[test]
fn the_console_keeps_the_newest_five_hundred_lines() {
    let mut console: Vec<String> = Vec::new();
    append_log(&mut console, "00:00:01", "ready");
    assert_eq!(console, vec!["[00:00:01] ready".to_string()]);
    for i in 0..600 {
        append_log(&mut console, "t", &format!("line {i}"));
    }
    assert_eq!(console.len(), 500);
    assert_eq!(console[0], "[t] line 100");
    assert_eq!(console[499], "[t] line 599");
}

#[test]
fn queue_mod_skips_empty_ids_and_duplicates() {
    let mut queue: Vec<ModReference> = Vec::new();
    assert!(queue_mod(&mut queue, Provider::Modrinth, "fabric-api"));
    assert!(!queue_mod(&mut queue, Provider::Modrinth, "fabric-api"));
    assert!(queue_mod(&mut queue, Provider::CurseForge, "fabric-api"));
    assert!(!queue_mod(&mut queue, Provider::CurseForge, ""));
    assert!(!queue_mod(&mut queue, Provider::Modrinth, "  fabric-api\t"));
    assert!(!queue_mod(&mut queue, Provider::Modrinth, " \n "));
    assert!(queue_mod(&mut queue, Provider::Modrinth, " sodium "));
    assert_eq!(queue.len(), 3);
    assert_eq!(queue[0], ModReference::modrinth("fabric-api"));
    assert_eq!(queue[2], ModReference::modrinth("sodium"));
}

#[test]
fn install_is_enabled_only_with_a_queue_and_no_install_running() {
    let mut queue: Vec<ModReference> = Vec::new();
    assert!(!can_install(&queue, false));
    queue.push(ModReference::modrinth("sodium"));
    assert!(can_install(&queue, false));
    assert!(!can_install(&queue, true));
}

#[test]
fn finishing_an_install_logs_the_outcome_and_clears_the_queue_on_success() {
    let mut queue = vec![ModReference::modrinth("root")];
    let mut installing = true;
    let mut console: Vec<String> = Vec::new();
    let outcome: Result<Vec<String>, String> = Err("boom".to_string());
    install_finished(&mut queue, &mut installing, &mut console, "12:00:00", &outcome);
    assert!(!installing);
    assert_eq!(queue.len(), 1);
    assert_eq!(console, vec!["[12:00:00] Install failed: boom".to_string()]);

    installing = true;
    let outcome: Result<Vec<String>, String> = Ok(vec!["root.jar".to_string(), "a.jar".to_string()]);
    install_finished(&mut queue, &mut installing, &mut console, "12:00:01", &outcome);
    assert!(!installing);
    assert!(queue.is_empty());
    assert_eq!(
        console[1..],
        [
            "[12:00:01] Installed 2 file(s):".to_string(),
            "[12:00:01]   root.jar".to_string(),
            "[12:00:01]   a.jar".to_string(),
        ]
    );
}
