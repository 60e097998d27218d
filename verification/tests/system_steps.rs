use hypricons::system::{
    answer, command_line, event_name, focus_retry_delays, is_wayland_display, layer_shell_candidates,
    layer_shell_pattern, lookup_start, lookup_step, lookup_type, mount_start, mount_step,
    opened_content_type, output_lines, placement, preload_value, screen_label, trash_files_dir_for,
    udisks_result, unmount_start, unmount_step, window_plan, window_title, FsEvent, IsoCommand,
    LookupAction, LookupState, MountAction, MountState, PendingChanges, Placement, ProcessOutcome,
    UnmountAction, UnmountState, DEBOUNCE_MS, DesktopManager, ManagerStep,
};

fn ok(stdout: &str) -> ProcessOutcome {
    ProcessOutcome::Exited { success: true, stdout: stdout.as_bytes().to_vec(), stderr: vec![] }
}

fn failed(stderr: &str) -> ProcessOutcome {
    ProcessOutcome::Exited { success: false, stdout: vec![], stderr: stderr.as_bytes().to_vec() }
}

#[test]
fn query_output() {
    assert_eq!(output_lines(&ok("  /dev/loop0 \n\n/dev/loop1\n")), Some(vec!["/dev/loop0".to_string(), "/dev/loop1".to_string()]));
    assert_eq!(output_lines(&failed("x")), None);
    assert_eq!(output_lines(&ProcessOutcome::NotStarted("no such file".into())), None);
    assert_eq!(answer(&ok("\n /mnt/iso \n/other")), Some("/mnt/iso".to_string()));
    assert_eq!(answer(&ok("   \n")), None);
}

#[test]
fn udisks_results() {
    assert_eq!(udisks_result(&ok("whatever")), Ok(()));
    assert_eq!(udisks_result(&failed("  Error: busy\n")), Err("Error: busy".to_string()));
    assert_eq!(
        udisks_result(&ProcessOutcome::NotStarted("No such file or directory (os error 2)".into())),
        Err("udisksctl: No such file or directory (os error 2) (is udisks2 installed?)".to_string())
    );
}

#[test]
fn command_lines() {
    let (p, a) = command_line("/i.iso", &IsoCommand::FindLoop);
    assert_eq!((p.as_str(), a), ("losetup", vec!["-j", "/i.iso", "-O", "NAME", "--noheadings"].into_iter().map(String::from).collect::<Vec<_>>()));
    let (p, a) = command_line("/i.iso", &IsoCommand::FindMount("/dev/loop0".into()));
    assert_eq!(p, "findmnt");
    assert_eq!(a, vec!["-n", "-o", "TARGET", "-S", "/dev/loop0"]);
    let (p, a) = command_line("/i.iso", &IsoCommand::LoopSetup);
    assert_eq!((p.as_str(), a), ("udisksctl", vec!["loop-setup".to_string(), "-f".to_string(), "/i.iso".to_string()]));
    let (_, a) = command_line("/i.iso", &IsoCommand::Mount("/dev/loop0".into()));
    assert_eq!(a, vec!["mount", "-b", "/dev/loop0"]);
    let (_, a) = command_line("/i.iso", &IsoCommand::Unmount("/dev/loop0".into()));
    assert_eq!(a, vec!["unmount", "-b", "/dev/loop0"]);
    let (_, a) = command_line("/i.iso", &IsoCommand::LoopDelete("/dev/loop0".into()));
    assert_eq!(a, vec!["loop-delete", "-b", "/dev/loop0"]);
}

#[test]
fn mounting_an_already_mounted_image() {
    let a = mount_start();
    assert_eq!(a, MountAction::Run(MountState::CheckedLoop, IsoCommand::FindLoop));
    let a = mount_step(MountState::CheckedLoop, &ok("/dev/loop3\n"));
    assert_eq!(a, MountAction::Run(MountState::CheckedMount, IsoCommand::FindMount("/dev/loop3".into())));
    let a = mount_step(MountState::CheckedMount, &ok("/run/media/u/ISO\n"));
    assert_eq!(a, MountAction::Finish(Ok("/run/media/u/ISO".into())));
}

#[test]
fn mounting_from_scratch() {
    let a = mount_step(MountState::CheckedLoop, &ok(""));
    assert_eq!(a, MountAction::Run(MountState::FindingLoop, IsoCommand::FindLoop));
    let a = mount_step(MountState::FindingLoop, &ok(""));
    assert_eq!(a, MountAction::Run(MountState::SettingUp, IsoCommand::LoopSetup));
    let a = mount_step(MountState::SettingUp, &ok("Mapped file"));
    assert_eq!(a, MountAction::Run(MountState::FoundAfterSetup, IsoCommand::FindLoop));
    let a = mount_step(MountState::FoundAfterSetup, &ok("/dev/loop0"));
    assert_eq!(a, MountAction::Run(MountState::CheckingDevice("/dev/loop0".into()), IsoCommand::FindMount("/dev/loop0".into())));
    let a = mount_step(MountState::CheckingDevice("/dev/loop0".into()), &failed(""));
    assert_eq!(a, MountAction::Run(MountState::Mounting("/dev/loop0".into()), IsoCommand::Mount("/dev/loop0".into())));
    let a = mount_step(MountState::Mounting("/dev/loop0".into()), &ok("Mounted"));
    assert_eq!(a, MountAction::Run(MountState::Verifying("/dev/loop0".into()), IsoCommand::FindMount("/dev/loop0".into())));
    assert_eq!(mount_step(MountState::Verifying("/dev/loop0".into()), &ok("/mnt/x")), MountAction::Finish(Ok("/mnt/x".into())));
}

#[test]
fn mounting_errors() {
    assert_eq!(mount_step(MountState::SettingUp, &failed("not permitted\n")), MountAction::Finish(Err("not permitted".into())));
    assert_eq!(mount_step(MountState::FoundAfterSetup, &ok("")), MountAction::Finish(Err("loop device not found after setup".into())));
    assert_eq!(mount_step(MountState::Mounting("/dev/l".into()), &failed("busy")), MountAction::Finish(Err("busy".into())));
    assert_eq!(mount_step(MountState::Verifying("/dev/l".into()), &ok("")), MountAction::Finish(Err("mountpoint not found after mount".into())));
    assert_eq!(mount_step(MountState::CheckedMount, &failed("")), MountAction::Run(MountState::FindingLoop, IsoCommand::FindLoop));
    assert_eq!(mount_step(MountState::FindingLoop, &ok("/dev/l")), MountAction::Run(MountState::CheckingDevice("/dev/l".into()), IsoCommand::FindMount("/dev/l".into())));
    assert_eq!(mount_step(MountState::CheckingDevice("/dev/l".into()), &ok("/m")), MountAction::Finish(Ok("/m".into())));
}

#[test]
fn unmounting() {
    assert_eq!(unmount_start(), UnmountAction::Run(UnmountState::FindingLoop, IsoCommand::FindLoop));
    assert_eq!(unmount_step(UnmountState::FindingLoop, &ok("")), UnmountAction::Finish(Err("ISO is not mounted".into())));
    assert_eq!(
        unmount_step(UnmountState::FindingLoop, &ok("/dev/l")),
        UnmountAction::Run(UnmountState::CheckingMount("/dev/l".into()), IsoCommand::FindMount("/dev/l".into()))
    );
    assert_eq!(
        unmount_step(UnmountState::CheckingMount("/dev/l".into()), &ok("/m")),
        UnmountAction::Run(UnmountState::Unmounting("/dev/l".into()), IsoCommand::Unmount("/dev/l".into()))
    );
    assert_eq!(
        unmount_step(UnmountState::CheckingMount("/dev/l".into()), &ok("")),
        UnmountAction::Run(UnmountState::Detaching, IsoCommand::LoopDelete("/dev/l".into()))
    );
    assert_eq!(unmount_step(UnmountState::Unmounting("/dev/l".into()), &failed("busy")), UnmountAction::Finish(Err("busy".into())));
    assert_eq!(
        unmount_step(UnmountState::Unmounting("/dev/l".into()), &ok("")),
        UnmountAction::Run(UnmountState::Detaching, IsoCommand::LoopDelete("/dev/l".into()))
    );
    assert_eq!(unmount_step(UnmountState::Detaching, &ok("")), UnmountAction::Finish(Ok(())));
    assert_eq!(unmount_step(UnmountState::Detaching, &failed("e")), UnmountAction::Finish(Err("e".into())));
}

#[test]
fn mount_point_lookup() {
    assert!(matches!(lookup_start(), LookupAction::Run(LookupState::FindingLoop, IsoCommand::FindLoop)));
    assert!(matches!(lookup_step(LookupState::FindingLoop, &ok("")), LookupAction::Finish(None)));
    match lookup_step(LookupState::FindingLoop, &ok("/dev/l\n")) {
        LookupAction::Run(LookupState::FindingMount, IsoCommand::FindMount(d)) => assert_eq!(d, "/dev/l"),
        _ => panic!("expected a mount query"),
    }
    match lookup_step(LookupState::FindingMount, &ok("/m\n")) {
        LookupAction::Finish(m) => assert_eq!(m.as_deref(), Some("/m")),
        _ => panic!("expected an answer"),
    }
    assert!(matches!(lookup_step(LookupState::FindingMount, &failed("")), LookupAction::Finish(None)));
}

#[test]
fn trash_folder() {
    assert_eq!(trash_files_dir_for(Some("/xdg"), Some("/home/u")), "/xdg/Trash/files");
    assert_eq!(trash_files_dir_for(Some("relative"), Some("/home/u")), "/home/u/.local/share/Trash/files");
    assert_eq!(trash_files_dir_for(None, Some("/home/u")), "/home/u/.local/share/Trash/files");
    assert_eq!(trash_files_dir_for(None, None), "Trash/files");
}

#[test]
fn preloading() {
    let so = "/usr/lib/libgtk4-layer-shell.so";
    assert_eq!(preload_value(so, ""), Some(so.to_string()));
    assert_eq!(preload_value(so, "/x.so"), Some(format!("{so}:/x.so")));
    assert_eq!(preload_value(so, so), None);
    assert_eq!(preload_value(so, &format!("/x.so:{so}")), None);
    assert_eq!(preload_value(so, &format!("{so}.1")), Some(format!("{so}:{so}.1")));
    assert_eq!(preload_value(so, "::a::"), Some(format!("{so}:::a")));
    assert_eq!(preload_value(":x", ":x"), Some("x::x".to_string()));
    assert_eq!(layer_shell_candidates().len(), 5);
    assert_eq!(layer_shell_candidates()[0], "/usr/lib/libgtk4-layer-shell.so");
    assert_eq!(layer_shell_pattern(), "/usr/lib*/**/libgtk4-layer-shell.so*");
}

#[test]
fn windows() {
    assert_eq!(window_plan(false, 2), vec![(-1, "virtual".to_string())]);
    assert_eq!(window_plan(true, 2), vec![(0, "monitor-0".to_string()), (1, "monitor-1".to_string())]);
    assert_eq!(window_plan(false, 1), vec![(0, "monitor-0".to_string())]);
    assert_eq!(window_plan(true, 0), vec![(0, String::new())]);
    assert_eq!(screen_label(3, ""), "monitor-3");
    assert_eq!(screen_label(-1, ""), "virtual");
    assert_eq!(screen_label(0, "eDP-1"), "eDP-1");
    assert_eq!(window_title("monitor-0"), "Desktop monitor-0");
    assert_eq!(placement(-1, 2), Placement::Virtual);
    assert_eq!(placement(1, 2), Placement::Monitor(1));
    assert_eq!(placement(2, 2), Placement::Unassigned);
    assert_eq!(placement(-5, 2), Placement::Unassigned);
    assert!(is_wayland_display("Wayland-1"));
    assert!(!is_wayland_display(":0"));
}

#[test]
fn launching_helpers() {
    assert_eq!(opened_content_type(true, "text/plain"), "inode/directory");
    assert_eq!(opened_content_type(false, "image/png"), "image/png");
    assert_eq!(lookup_type("text/x-python", true), "text/plain");
    assert_eq!(lookup_type("image/png", false), "image/png");
    assert_eq!(focus_retry_delays(), vec![150, 450, 1000]);
}

#[test]
fn folder_changes_are_debounced() {
    assert_eq!(DEBOUNCE_MS, 100);
    assert_eq!(event_name(FsEvent::MovedIn), "moved_in");
    assert_eq!(event_name(FsEvent::Other), "changed");
    let mut p = PendingChanges::new();
    assert!(p.record(Some("a.txt"), FsEvent::Created));
    assert!(p.record(Some("b.txt"), FsEvent::Created));
    assert!(!p.record(Some(".hidden"), FsEvent::Deleted));
    assert!(!p.record(None, FsEvent::Deleted));
    assert!(p.record(Some("c"), FsEvent::Renamed));
    let mut seen = p.take();
    seen.sort();
    assert_eq!(seen, vec!["created".to_string(), "renamed".to_string()]);
    assert!(p.take().is_empty());
}

#[test]
fn desktop_manager_opens_once_and_closes_all() {
    let mut m = DesktopManager::new();
    assert!(!m.enabled());
    assert_eq!(m.window_count(), 0);
    match m.set_enabled(true, false, 2) {
        ManagerStep::Open(plan) => assert_eq!(plan, vec![(-1, "virtual".to_string())]),
        _ => panic!("expected windows to open"),
    }
    assert!(m.enabled());
    assert_eq!(m.window_count(), 1);
    assert!(matches!(m.set_enabled(true, false, 2), ManagerStep::Keep));
    assert_eq!(m.window_count(), 1);
    assert!(matches!(m.set_enabled(false, false, 2), ManagerStep::Close));
    assert!(!m.enabled());
    assert_eq!(m.window_count(), 0);
    assert!(matches!(m.set_enabled(false, false, 2), ManagerStep::Keep));
    match m.set_enabled(true, true, 3) {
        ManagerStep::Open(plan) => assert_eq!(plan.len(), 3),
        _ => panic!("expected windows to open"),
    }
    assert_eq!(m.window_count(), 3);
}
