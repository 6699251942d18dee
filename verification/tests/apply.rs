use hue::catalog::ThemeMapping;
use hue::config::Paths;
use hue::error::Error;
use hue::target::{warning, write_target, ApplyAction, ApplyEvent, ApplyState, Target, WriteAction};

fn mapping() -> ThemeMapping {
    ThemeMapping { ghostty: Some("Nord".to_string()), helix: None, zed: None }
}

#[test]
fn nothing_to_do_without_a_theme_for_the_target() {
    let p = Paths::from_home("/h".to_string());
    let (s, a) = Target::Helix.apply_mapping(&mapping(), &p, false, ApplyState::Start, ApplyEvent::Begin);
    assert!(matches!(s, ApplyState::Finished));
    assert!(matches!(a, ApplyAction::Done { result: Ok(false), reload: None }));
}

#[test]
fn missing_configuration_is_reported() {
    let p = Paths::from_home("/h".to_string());
    let (s, a) = Target::Ghostty.apply_mapping(&mapping(), &p, false, ApplyState::Start, ApplyEvent::Begin);
    match &a {
        ApplyAction::CheckPath(path) => assert_eq!(path, "/h/.config/ghostty/config"),
        _ => panic!("expected a path check"),
    }
    let (s, a) = Target::Ghostty.apply_mapping(&mapping(), &p, false, s, ApplyEvent::PathChecked(false));
    assert!(matches!(s, ApplyState::Finished));
    match a {
        ApplyAction::Done { result: Err(Error::MissingTarget { app, path }), reload: None } => {
            assert_eq!(app, Target::Ghostty);
            assert_eq!(path, "/h/.config/ghostty/config");
        }
        _ => panic!("expected MissingTarget"),
    }
}

#[test]
fn full_run_patches_and_reloads() {
    let p = Paths::from_home("/h".to_string());
    let t = Target::Ghostty;
    let (s, _) = t.apply_mapping(&mapping(), &p, false, ApplyState::Start, ApplyEvent::Begin);
    let (s, a) = t.apply_mapping(&mapping(), &p, false, s, ApplyEvent::PathChecked(true));
    assert!(matches!(a, ApplyAction::ReadFile(ref f) if f == "/h/.config/ghostty/config"));
    let (s, a) = t.apply_mapping(&mapping(), &p, false, s, ApplyEvent::ContentsRead("theme = Old\n".to_string()));
    match &a {
        ApplyAction::Write { path, original, updated, plan } => {
            assert_eq!(path, "/h/.config/ghostty/config");
            assert_eq!(original, "theme = Old\n");
            assert_eq!(updated, "theme = Nord\n");
            assert!(plan.changed);
            assert!(matches!(plan.action, WriteAction::WriteFile));
        }
        _ => panic!("expected a write"),
    }
    let (s, a) = t.apply_mapping(&mapping(), &p, false, s, ApplyEvent::WriteDone);
    assert!(matches!(s, ApplyState::Finished));
    match a {
        ApplyAction::Done { result: Ok(true), reload: Some(cmd) } => {
            assert_eq!(cmd.program, "killall");
            assert_eq!(cmd.args, vec!["-USR2".to_string(), "ghostty".to_string()]);
        }
        _ => panic!("expected a reload"),
    }
}

#[test]
fn dry_run_does_not_reload() {
    let p = Paths::from_home("/h".to_string());
    let t = Target::Ghostty;
    let (s, _) = t.apply_mapping(&mapping(), &p, true, ApplyState::Start, ApplyEvent::Begin);
    let (s, _) = t.apply_mapping(&mapping(), &p, true, s, ApplyEvent::PathChecked(true));
    let (s, a) = t.apply_mapping(&mapping(), &p, true, s, ApplyEvent::ContentsRead("x = 1\n".to_string()));
    assert!(matches!(a, ApplyAction::Write { ref plan, .. } if plan.changed && matches!(plan.action, WriteAction::ShowDiff)));
    let (_, a) = t.apply_mapping(&mapping(), &p, true, s, ApplyEvent::WriteDone);
    assert!(matches!(a, ApplyAction::Done { result: Ok(true), reload: None }));
}

#[test]
fn unchanged_file_does_not_reload() {
    let p = Paths::from_home("/h".to_string());
    let t = Target::Ghostty;
    let (s, _) = t.apply_mapping(&mapping(), &p, false, ApplyState::Start, ApplyEvent::Begin);
    let (s, _) = t.apply_mapping(&mapping(), &p, false, s, ApplyEvent::PathChecked(true));
    let (s, a) = t.apply_mapping(&mapping(), &p, false, s, ApplyEvent::ContentsRead("theme = Nord\n".to_string()));
    assert!(matches!(a, ApplyAction::Write { ref plan, .. } if !plan.changed));
    let (_, a) = t.apply_mapping(&mapping(), &p, false, s, ApplyEvent::WriteDone);
    assert!(matches!(a, ApplyAction::Done { result: Ok(true), reload: None }));
}

#[test]
fn zed_patch_error_ends_the_run() {
    let p = Paths::from_home("/h".to_string());
    let m = ThemeMapping { ghostty: None, helix: None, zed: Some("One".to_string()) };
    let t = Target::Zed;
    let (s, _) = t.apply_mapping(&m, &p, false, ApplyState::Start, ApplyEvent::Begin);
    let (s, _) = t.apply_mapping(&m, &p, false, s, ApplyEvent::PathChecked(true));
    let (_, a) = t.apply_mapping(&m, &p, false, s, ApplyEvent::ContentsRead("[]".to_string()));
    assert!(matches!(a, ApplyAction::Done { result: Err(Error::UnsupportedLayout { .. }), reload: None }));
}

#[test]
fn write_plans() {
    let p = write_target("/x", Target::Helix, "a", "a", true);
    assert!(!p.changed);
    match p.action {
        WriteAction::ReportUnchanged(m) => assert_eq!(m, "helix: no changes /x\n"),
        _ => panic!("expected a report"),
    }
    let p = write_target("/x", Target::Helix, "a", "b", true);
    assert!(p.changed && matches!(p.action, WriteAction::ShowDiff));
    let p = write_target("/x", Target::Helix, "a", "a", false);
    assert!(!p.changed && matches!(p.action, WriteAction::WriteFile));
}

#[test]
fn reload_commands() {
    let h = Target::Helix.reload_command().unwrap();
    assert_eq!(h.program, "pkill");
    assert_eq!(h.args, vec!["-USR1".to_string(), "-x".to_string(), "hx".to_string()]);
    assert!(Target::Zed.reload_command().is_none());
}

#[test]
fn warnings_carry_the_error_text() {
    assert_eq!(warning(&Ok(true)), None);
    assert_eq!(warning(&Ok(false)), None);
    let w = warning(&Err(Error::MissingTarget { app: Target::Zed, path: "/z".to_string() }));
    assert_eq!(w.as_deref(), Some("warning: missing target config for zed at /z"));
}
