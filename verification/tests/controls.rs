use wisprfree::audio::find_device_index;
use wisprfree::autostart::{state_after, to_wide, toggle, AutostartAction};
use wisprfree::config::{app_file_under, config_dir_under, config_path, resolve_model_path, AppConfig, ConfigError};
use wisprfree::dashboard::{first_line, html_response, json_response, route, Route, NOT_FOUND};
use wisprfree::hotkey::{hook_step, HotkeyEvent, WM_KEYDOWN, WM_KEYUP, WM_SYSKEYDOWN};
use wisprfree::injector::{inject, release_modifiers, send_ctrl_v, unicode_keystrokes, InjectionPlan, KeyStroke};
use wisprfree::instance::{after_lock_attempt, after_replace_answer, is_stale_instance, LockDecision};
use wisprfree::overlay::{overlay_change, state_color, state_text, state_to_u8, OverlayState, COLOR_GREEN, COLOR_RED};
use wisprfree::shortcut::{ensure_shortcut, shortcut_script};
use wisprfree::transcriber::{cli_candidates, first_existing, transcription_text, where_answer, Transcriber, TranscriberError};
use wisprfree::tray::{command_for_id, command_for_item, default_icon_rgba, TrayCommand};
use wisprfree::dictionary::{DictEntry, DictFile, PersonalDictionary};
use wisprfree::snippets::{SnippetEntry, SnippetFile, SnippetLibrary};
use wisprfree::pipeline::post_process;

#[test]
fn toggle_flips_and_twice_restores() {
    assert_eq!(toggle(true), AutostartAction::Disable);
    assert_eq!(toggle(false), AutostartAction::Enable);
    let once = state_after(true, toggle(true), true);
    assert!(!once);
    assert!(state_after(once, toggle(once), true));
    assert!(state_after(true, toggle(true), false));
    assert!(!state_after(false, toggle(false), false));
}

#[test]
fn wide_text_is_nul_terminated_utf16() {
    assert_eq!(to_wide("Ab"), vec![0x41, 0x62, 0]);
    assert_eq!(to_wide("é😀"), vec![0xE9, 0xD83D, 0xDE00, 0]);
    assert_eq!(to_wide(""), vec![0]);
}

#[test]
fn defaults_follow_the_documented_values() {
    let c = AppConfig::default();
    assert!(c.general.show_notifications);
    assert_eq!(c.general.log_level, "info");
    assert_eq!(c.audio.device_name, "");
    assert_eq!(c.audio.buffer_ms, 100);
    assert_eq!(c.whisper.model_path, "models/ggml-base.en.bin");
    assert_eq!(c.whisper.language, "en");
    assert!(!c.whisper.use_gpu);
    assert_eq!(c.whisper.threads, 0);
    assert_eq!(c.hotkey.vk_code, 32);
    assert!(c.hotkey.ctrl && !c.hotkey.alt && !c.hotkey.shift);
    assert_eq!(c.injection.method, "clipboard");
    assert_eq!(c.injection.clipboard_restore_delay_ms, 150);
}

#[test]
fn config_file_sits_in_the_app_directory() {
    if let Ok(p) = config_path() {
        assert!(p.ends_with("config.toml"));
        let dir = &p[..p.len() - "config.toml".len()];
        assert!(dir.trim_end_matches(|c| c == '/' || c == '\\').ends_with("WisprFree"));
    }
}

#[test]
fn push_to_talk_sends_each_event_once() {
    let (e, held) = hook_step(0x20, true, 0x20, WM_KEYDOWN, true, false);
    assert_eq!((e, held), (Some(HotkeyEvent::PushDown), true));
    let (e, held) = hook_step(0x20, true, 0x20, WM_KEYDOWN, true, held);
    assert_eq!((e, held), (None, true));
    let (e, held) = hook_step(0x20, true, 0x20, WM_KEYUP, true, held);
    assert_eq!((e, held), (Some(HotkeyEvent::PushUp), false));
}

#[test]
fn release_after_ctrl_still_stops_recording() {
    let (e, held) = hook_step(0x20, true, 0x20, WM_SYSKEYDOWN, true, false);
    assert_eq!(e, Some(HotkeyEvent::PushDown));
    let (e, held) = hook_step(0x20, true, 0x20, WM_KEYUP, false, held);
    assert_eq!((e, held), (Some(HotkeyEvent::PushUp), false));
    assert_eq!(hook_step(0x20, true, 0x20, WM_KEYUP, false, false), (None, false));
    let (e, _) = hook_step(0x20, true, 0x20, WM_KEYDOWN, true, held);
    assert_eq!(e, Some(HotkeyEvent::PushDown));
}

#[test]
fn other_keys_and_missing_ctrl_are_ignored() {
    assert_eq!(hook_step(0x20, true, 0x41, WM_KEYDOWN, true, false), (None, false));
    assert_eq!(hook_step(0x20, true, 0x20, WM_KEYDOWN, false, false), (None, false));
    assert_eq!(hook_step(0x20, false, 0x20, WM_KEYDOWN, false, false), (Some(HotkeyEvent::PushDown), true));
}

#[test]
fn overlay_states() {
    assert_eq!(state_to_u8(OverlayState::Recording), 1);
    assert_eq!(state_to_u8(OverlayState::Hidden), 0);
    assert_eq!(state_color(state_to_u8(OverlayState::Recording)), COLOR_RED);
    assert_eq!(state_color(state_to_u8(OverlayState::Done)), COLOR_GREEN);
    assert_eq!(state_color(0), 0);
    assert_eq!(state_text(3), "  \u{2713}  Done");
    assert_eq!(state_text(9), "");
}

#[test]
fn tray_icon_has_transparent_border() {
    let px = default_icon_rgba();
    assert_eq!(px.len(), 32 * 32 * 4);
    assert_eq!(&px[0..4], &[0, 0, 0, 0]);
    let i = (5 * 32 + 5) * 4;
    assert_eq!(&px[i..i + 4], &[46, 204, 113, 255]);
    let j = (31 * 32 + 31) * 4;
    assert_eq!(&px[j..j + 4], &[0, 0, 0, 0]);
    assert_ne!(TrayCommand::Quit, TrayCommand::About);
}

#[test]
fn transcriber_validation() {
    match Transcriber::new("m.bin", false, "en", false, 0, Some("w".into()), Some(8)) {
        Err(TranscriberError::ModelNotFound { model_path }) => assert_eq!(model_path, "m.bin"),
        _ => panic!("expected a missing model"),
    }
    assert!(matches!(
        Transcriber::new("m.bin", true, "en", false, 0, None, Some(8)),
        Err(TranscriberError::CliNotFound)
    ));
}

#[test]
fn transcriber_arguments() {
    let t = match Transcriber::new("m.bin", true, "en", false, 0, Some("cli".into()), None) {
        Ok(t) => t,
        Err(_) => panic!("expected a transcriber"),
    };
    assert_eq!(t.cli_path(), "cli");
    let args = t.command_args("a.wav");
    assert_eq!(
        args,
        vec![
            "-m", "m.bin", "-f", "a.wav", "--no-timestamps", "--no-prints", "-t", "4", "--prompt",
            "Hello, how are you? This is a voice dictation of natural English speech.", "-l", "en",
        ]
    );
    let t2 = match Transcriber::new("m.bin", true, "", false, 12, Some("cli".into()), Some(2)) {
        Ok(t) => t,
        Err(_) => panic!("expected a transcriber"),
    };
    let args2 = t2.command_args("b.wav");
    assert_eq!(args2.len(), 10);
    assert_eq!(args2[7], "12");
}

#[test]
fn transcription_output_is_trimmed() {
    match transcription_text(true, "0", "  hello there \n", "") {
        Ok(t) => assert_eq!(t, "hello there"),
        Err(_) => panic!("expected text"),
    }
    match transcription_text(false, "exit code: 1", "", " boom \n") {
        Err(TranscriberError::Failed { status, stderr }) => {
            assert_eq!(status, "exit code: 1");
            assert_eq!(stderr, "boom");
        }
        _ => panic!("expected a failure"),
    }
}

#[test]
fn cli_is_looked_for_next_to_the_executable() {
    let c = cli_candidates("dir");
    assert_eq!(c.len(), 6);
    assert!(c[0].starts_with("dir") && c[0].ends_with("whisper-cli.exe"));
    assert!(c[1].contains("bin") && c[1].ends_with("whisper-cli.exe"));
    assert!(c[5].contains("bin") && c[5].ends_with("main.exe"));
}

#[test]
fn requests_are_routed() {
    assert_eq!(route("GET /api/data HTTP/1.1"), Route::Data);
    assert_eq!(route("GET / HTTP/1.1"), Route::Page);
    assert_eq!(route("GET /favicon.ico HTTP/1.1"), Route::Page);
    assert_eq!(route("POST / HTTP/1.1"), Route::NotFound);
    assert_eq!(first_line("GET / HTTP/1.1\r\nHost: x\r\n"), "GET / HTTP/1.1");
    assert_eq!(first_line(""), "");
    assert_eq!(first_line("no newline\r"), "no newline\r");
}

#[test]
fn responses_carry_byte_lengths() {
    assert_eq!(
        json_response("{\"é\":1}"),
        "HTTP/1.1 200 OK\r\nContent-Type: application/json\r\nContent-Length: 8\r\nAccess-Control-Allow-Origin: *\r\nCache-Control: no-cache\r\nConnection: close\r\n\r\n{\"é\":1}"
    );
    assert_eq!(
        html_response("<p>"),
        "HTTP/1.1 200 OK\r\nContent-Type: text/html; charset=utf-8\r\nContent-Length: 3\r\nConnection: close\r\n\r\n<p>"
    );
    assert!(NOT_FOUND.starts_with("HTTP/1.1 404 Not Found"));
}

#[test]
fn devices_match_by_lowercase_substring() {
    let names = vec![None, Some("Speakers".to_string()), Some("USB MicroPhone".to_string())];
    assert_eq!(find_device_index(&names, "microphone"), Some(2));
    assert_eq!(find_device_index(&names, "SPEAK"), Some(1));
    assert_eq!(find_device_index(&names, "headset"), None);
}

#[test]
fn shortcut_script_quotes_paths() {
    let s = shortcut_script("C:\\it's.lnk", "C:\\a.exe", "C:\\");
    assert_eq!(
        s,
        "$ws = New-Object -ComObject WScript.Shell; $s = $ws.CreateShortcut('C:\\it''s.lnk'); $s.TargetPath = 'C:\\a.exe'; $s.WorkingDirectory = 'C:\\'; $s.Description = 'WisprFree - Local voice-to-text'; $s.Save()"
    );
    assert_eq!(ensure_shortcut(Some("e".to_string()), "l", "e", "d"), None);
    assert_eq!(ensure_shortcut(Some("old.exe".to_string()), "l", "e", "d"), Some(shortcut_script("l", "e", "d")));
    assert_eq!(ensure_shortcut(None, "l", "e", "d"), Some(shortcut_script("l", "e", "d")));
}

#[test]
fn injection_plans() {
    assert!(matches!(inject("", "clipboard", 10), InjectionPlan::Nothing));
    match inject("hé", "sendinput", 10) {
        InjectionPlan::SendInput { keystrokes } => {
            assert_eq!(keystrokes.len(), 4);
            assert_eq!(keystrokes[0], KeyStroke { vk: 0, scan: 0x68, key_up: false, unicode: true });
            assert_eq!(keystrokes[3], KeyStroke { vk: 0, scan: 0xE9, key_up: true, unicode: true });
        }
        _ => panic!("expected key events"),
    }
    match inject("hi", "clipboard", 10) {
        InjectionPlan::Clipboard { text_utf16, release, paste, paste_wait_ms } => {
            assert_eq!(text_utf16, vec![0x68, 0x69, 0]);
            assert_eq!(release, release_modifiers());
            assert_eq!(paste, send_ctrl_v());
            assert_eq!(paste_wait_ms, 100);
        }
        _ => panic!("expected the clipboard"),
    }
    match inject("hi", "anything", 250) {
        InjectionPlan::Clipboard { paste_wait_ms, .. } => assert_eq!(paste_wait_ms, 250),
        _ => panic!("expected the clipboard"),
    }
    assert_eq!(unicode_keystrokes("😀").len(), 4);
    assert_eq!(send_ctrl_v()[1], KeyStroke { vk: 0x56, scan: 0, key_up: false, unicode: false });
    assert_eq!(release_modifiers().len(), 5);
}

#[test]
fn stale_instances_are_other_copies() {
    let mut name: Vec<u16> = "WisprFree.EXE".encode_utf16().collect();
    name.push(0);
    name.push(0x41);
    assert!(is_stale_instance(&name, 10, 11));
    assert!(!is_stale_instance(&name, 11, 11));
    let other: Vec<u16> = "notepad.exe".encode_utf16().collect();
    assert!(!is_stale_instance(&other, 10, 11));
}

#[test]
fn pipeline_runs_in_order() {
    let d = PersonalDictionary::load(
        &DictFile { entry: vec![DictEntry { wrong: "whisperfree".into(), correct: "WisprFree".into() }] },
        "d.toml",
    );
    let s = SnippetLibrary::load(
        &SnippetFile { snippet: vec![SnippetEntry { trigger: "my email".into(), replacement: "a@b.c".into() }] },
        "s.toml",
    );
    assert_eq!(post_process("i use whisperfree", &d, &s), "I use WisprFree.");
    assert_eq!(post_process("my email", &d, &s), "a@b.c.");
}

#[test]
fn single_instance_decisions() {
    assert_eq!(after_lock_attempt(false, false), LockDecision::Proceed);
    assert_eq!(after_lock_attempt(false, true), LockDecision::AskToReplace);
    assert_eq!(after_lock_attempt(true, true), LockDecision::GiveUp);
    assert_eq!(after_lock_attempt(true, false), LockDecision::Proceed);
    assert_eq!(after_replace_answer(true), LockDecision::ReplaceAndRetry);
    assert_eq!(after_replace_answer(false), LockDecision::KeepOld);
}

#[test]
fn menu_items_emit_their_commands() {
    assert_eq!(command_for_item(0), Some(TrayCommand::ReloadConfig));
    assert_eq!(command_for_item(2), Some(TrayCommand::ToggleAutostart));
    assert_eq!(command_for_item(4), Some(TrayCommand::Quit));
    assert_eq!(command_for_item(5), None);
}

#[test]
fn relative_model_paths_sit_next_to_the_executable() {
    assert_eq!(
        resolve_model_path("models/ggml-base.en.bin", Some("/opt/wf".to_string())),
        ("/opt/wf/models/ggml-base.en.bin".to_string(), false)
    );
    assert_eq!(resolve_model_path("m.bin", None), ("./m.bin".to_string(), false));
    assert_eq!(resolve_model_path("/data/m.bin", Some("/opt/wf".to_string())), ("/data/m.bin".to_string(), true));
}

#[test]
fn application_files_sit_under_the_platform_directory() {
    assert_eq!(config_dir_under(Some("/home/u/.config".to_string())), Ok("/home/u/.config/WisprFree".to_string()));
    assert_eq!(config_dir_under(None), Err(ConfigError::NoConfigDir));
    assert_eq!(
        app_file_under(Some("/home/u/.config/".to_string()), "snippets.toml"),
        Ok("/home/u/.config/WisprFree/snippets.toml".to_string())
    );
    assert_eq!(app_file_under(None, "snippets.toml"), Err(ConfigError::NoConfigDir));
}

#[test]
fn the_first_existing_program_is_chosen() {
    let c = cli_candidates("/opt/wf");
    assert_eq!(first_existing(&c, &vec![false, false, true, true, false, false]), Some("/opt/wf/whisper.exe".to_string()));
    assert_eq!(first_existing(&c, &vec![false; 6]), None);
    assert_eq!(where_answer(true, "  C:\\w\\whisper-cli.exe\r\nC:\\other.exe\r\n"), Some("C:\\w\\whisper-cli.exe".to_string()));
    assert_eq!(where_answer(true, ""), None);
    assert_eq!(where_answer(false, "C:\\x.exe"), None);
}

#[test]
fn the_model_is_checked_first() {
    assert!(Transcriber::model_check("m.bin", true).is_ok());
    match Transcriber::model_check("m.bin", false) {
        Err(TranscriberError::ModelNotFound { model_path }) => assert_eq!(model_path, "m.bin"),
        _ => panic!("expected a missing model"),
    }
}

#[test]
fn overlay_changes() {
    let done = overlay_change(OverlayState::Done);
    assert_eq!((done.code, done.visible, done.auto_hide_ms), (3, true, Some(1000)));
    let hidden = overlay_change(OverlayState::Hidden);
    assert_eq!((hidden.code, hidden.visible, hidden.auto_hide_ms), (0, false, None));
    let rec = overlay_change(OverlayState::Recording);
    assert_eq!((rec.code, rec.visible, rec.auto_hide_ms), (1, true, None));
}

#[test]
fn menu_ids_emit_their_commands() {
    let ids: Vec<String> = ["1", "2", "3", "4", "5"].iter().map(|s| s.to_string()).collect();
    assert_eq!(command_for_id(&ids, "1"), Some(TrayCommand::ReloadConfig));
    assert_eq!(command_for_id(&ids, "5"), Some(TrayCommand::Quit));
    assert_eq!(command_for_id(&ids, "9"), None);
}
