use overlayfs::core_mount::CorePhase;
use overlayfs::overlay::OverlayPhase;
use overlayfs::stacked::StackedPhase;
use overlayfs::{
    bind_mount, child_relative_path, cleanup_staging_mount, collapse_staging_layers,
    collect_child_mount_points, escape_mount_option_value, mount_overlay, mount_overlay_child,
    mount_overlay_core, mount_overlayfs, BindMount, ChildMount, CoreMount, MountEffect, MountError,
    MountFlags, Next, OverlayMount, Place, Reply, Request, StackedMount, StagingCleanup, TreeFlags,
    MAX_LAYERS,
};
use std::path::Path;

fn text(s: &str) -> String {
    s.to_owned()
}

fn texts(list: &[&str]) -> Vec<String> {
    list.iter().map(|s| text(s)).collect()
}

fn target(s: &str) -> Place {
    Place::Target(text(s))
}

fn worked() -> Reply {
    Reply::Outcome(Ok(()))
}

fn failed(cause: &str) -> Reply {
    Reply::Outcome(Err(text(cause)))
}

fn legacy(source: &str, target: Place, data: &str) -> Next {
    Next::Ask(Request::Mount {
        source: text(source),
        target,
        fstype: text("overlay"),
        flags: MountFlags { bind: false, recursive: false },
        data: Some(text(data)),
    })
}

fn fsopen(upper: Option<&str>, work: Option<&str>, lowerdir: &str, source: &str, dest: Place) -> Next {
    Next::Ask(Request::Fsopen {
        upper: upper.map(text),
        work: work.map(text),
        lowerdir: text(lowerdir),
        source: text(source),
        dest,
    })
}

fn single(layers: &[&str], upper: Option<&str>, work: Option<&str>, source: &str) -> CoreMount {
    mount_overlay_core(&texts(layers), upper.map(text), work.map(text), target("/dest"), source)
}

#[test]
fn fsopen_is_tried_first_and_its_success_ends_the_mount() {
    let mount = single(&["/a", "/b"], None, None, "overlay");
    assert_eq!(mount.next(), fsopen(None, None, "/a:/b", "overlay", target("/dest")));
    assert_eq!(mount.resume(worked()).next(), Next::Finished(Ok(())));
}

#[test]
fn failed_fsopen_falls_back_to_the_escaped_legacy_mount() {
    let mount = single(&["/a,b", "/c:d", "/e\\f"], None, None, "overlay").resume(failed("EINVAL"));
    let data = "lowerdir=/a\\,b:/c\\:d:/e\\\\f";
    assert_eq!(mount.next(), legacy("overlay", target("/dest"), data));
    assert_eq!(mount.resume(worked()).next(), Next::Finished(Ok(())));
}

#[test]
fn failed_legacy_mount_is_reported_with_its_destination() {
    let mount = single(&["/a"], None, None, "overlay").resume(failed("x")).resume(failed("EPERM"));
    match mount.next() {
        Next::Finished(Err(err)) => {
            assert_eq!(err.message(), "legacy overlay mount /dest: EPERM");
        }
        other => panic!("{other:?}"),
    }
}

#[test]
fn directories_take_part_only_where_they_exist() {
    let mount = single(&["/a"], Some("/up,per"), Some("/work"), "KSU");
    assert_eq!(mount.next(), Next::Ask(Request::UpperExists(text("/up,per"))));
    let mount = mount.resume(Reply::Flag(true));
    assert_eq!(mount.next(), Next::Ask(Request::WorkExists(text("/work"))));
    let mount = mount.resume(Reply::Flag(true));
    assert_eq!(
        mount.next(),
        fsopen(Some("/up,per"), Some("/work"), "/a", "KSU", target("/dest"))
    );
    let mount = mount.resume(failed("x"));
    let data = "lowerdir=/a,upperdir=/up\\,per,workdir=/work";
    assert_eq!(mount.next(), legacy("KSU", target("/dest"), data));

    let mount = single(&["/a"], Some("/upper"), Some("/work"), "KSU")
        .resume(Reply::Flag(true))
        .resume(Reply::Flag(false));
    assert_eq!(mount.next(), fsopen(Some("/upper"), None, "/a", "KSU", target("/dest")));
    let mount = mount.resume(failed("x"));
    assert_eq!(mount.next(), legacy("KSU", target("/dest"), "lowerdir=/a"));
}

#[test]
fn ksu_lower_only_mount_goes_straight_to_legacy() {
    let mount = single(&["/a", "/b"], None, None, "KSU");
    assert_eq!(mount.next(), legacy("KSU", target("/dest"), "lowerdir=/a:/b"));
}

#[test]
fn nul_in_legacy_data_is_an_error() {
    let mount = single(&["/a\0b"], None, None, "KSU");
    assert_eq!(mount.next(), Next::Finished(Err(MountError::NulInData)));
    assert_eq!(MountError::<String>::NulInData.message(), "overlay mount data contains NUL");
    // The primary path is still tried where there is one.
    let mount = single(&["/a\0b"], None, None, "overlay");
    assert_eq!(mount.next(), fsopen(None, None, "/a\0b", "overlay", target("/dest")));
    assert_eq!(
        mount.resume(failed("x")).next(),
        Next::Finished(Err(MountError::NulInData))
    );
}

#[test]
fn replies_of_another_kind_change_nothing() {
    let mount = single(&["/a"], None, None, "overlay").resume(Reply::Flag(true)).resume(Reply::Done);
    assert_eq!(mount.phase, CorePhase::Fsopen);
    let bind = bind_mount("/from", "/to").resume(Reply::Done);
    assert_eq!(bind, bind_mount("/from", "/to"));
}

fn layers(count: usize) -> Vec<String> {
    (0..count).map(|n| format!("/layer{n}")).collect()
}

fn stacked(count: usize, source: &str) -> StackedMount {
    mount_overlayfs(&layers(count), "/lowest", None, None, "/dest", "/stage", source)
}

#[test]
fn few_layers_are_mounted_at_once() {
    let mount = stacked(63, "overlay");
    let mut all = layers(63);
    all.push(text("/lowest"));
    assert_eq!(mount.next(), fsopen(None, None, &all.join(":"), "overlay", target("/dest")));
    assert_eq!(mount.resume(worked()).next(), Next::Finished(Ok(())));
}

#[test]
fn many_layers_are_staged_first() {
    let mount = stacked(64, "overlay");
    assert_eq!(mount.next(), Next::Ask(Request::CreateStagingDir { root: text("/stage") }));
    let mount = mount.resume(Reply::Directory(Ok(text("/staging"))));
    let mut tail = layers(64)[2..].to_vec();
    tail.push(text("/lowest"));
    assert_eq!(tail.len(), 63);
    assert_eq!(
        mount.next(),
        fsopen(None, None, &tail.join(":"), "overlay", Place::Staging(text("/staging")))
    );
    let mount = mount.resume(worked());
    assert_eq!(
        mount.next(),
        Next::Ask(Request::Report(MountEffect::Staging(text("/staging"))))
    );
    let mount = mount.resume(Reply::Done);
    assert_eq!(
        mount.next(),
        fsopen(None, None, "/layer0:/layer1:/staging", "overlay", target("/dest"))
    );
}

/// Runs a stacked overlay with a host on which everything works, and gives the sizes of the
/// staging mounts and the layers of the last mount.
fn run_stacked(mut mount: StackedMount) -> (Vec<usize>, Vec<String>) {
    let mut sizes = Vec::new();
    let mut last = Vec::new();
    loop {
        let reply = match mount.next() {
            Next::Finished(result) => {
                assert_eq!(result, Ok(()));
                return (sizes, last);
            }
            Next::Ask(Request::CreateStagingDir { .. }) => {
                Reply::Directory(Ok(format!("/staging{}", sizes.len())))
            }
            Next::Ask(Request::Fsopen { lowerdir, dest, .. }) => {
                let list: Vec<String> = lowerdir.split(':').map(text).collect();
                match dest {
                    Place::Staging(_) => sizes.push(list.len()),
                    Place::Target(_) => last = list,
                }
                worked()
            }
            Next::Ask(Request::Report(_)) => Reply::Done,
            other => panic!("{other:?}"),
        };
        mount = mount.resume(reply);
    }
}

#[test]
fn stacked_overlay_takes_the_steps_of_the_collapse() {
    for count in 0..=MAX_LAYERS * 4 {
        let (sizes, last) = run_stacked(stacked(count, "overlay"));
        let total = count + 1;
        let steps = if total <= 64 { 0 } else { (total - 64 + 61) / 62 };
        assert_eq!(sizes, vec![63; steps]);
        assert_eq!(last.len(), total - 62 * steps);

        let mut collapsed = layers(count);
        collapsed.push(text("/lowest"));
        let mut made = 0;
        collapse_staging_layers(&mut collapsed, |_| {
            made += 1;
            Ok::<_, String>(format!("/staging{}", made - 1))
        })
        .unwrap();
        assert_eq!(last, collapsed);
    }
}

#[test]
fn failed_collapse_keeps_the_kept_layers_and_the_error() {
    let mut list = layers(65);
    let result = collapse_staging_layers(&mut list, |_| Err::<String, _>("no space"));
    assert_eq!(result, Err("no space"));
    assert_eq!(list, layers(2));
}

#[test]
fn staging_failures_end_the_overlay() {
    let mount = stacked(64, "overlay").resume(Reply::Directory(Err(text("no space"))));
    match mount.next() {
        Next::Finished(Err(err)) => assert_eq!(err.message(), "no space"),
        other => panic!("{other:?}"),
    }
    let mount = stacked(64, "overlay")
        .resume(Reply::Directory(Ok(text("/staging"))))
        .resume(failed("a"))
        .resume(failed("b"));
    assert!(matches!(mount.phase, StackedPhase::Failed(_)));
    match mount.next() {
        Next::Finished(Err(err)) => {
            assert_eq!(err.message(), "legacy overlay mount /staging: b");
        }
        other => panic!("{other:?}"),
    }
}

fn opened() -> Next {
    Next::Ask(Request::OpenTree {
        path: text("/from"),
        flags: TreeFlags { cloexec: true, clone: true, recursive: true },
    })
}

fn bound() -> Next {
    Next::Ask(Request::Mount {
        source: text("/from"),
        target: target("/to"),
        fstype: text(""),
        flags: MountFlags { bind: true, recursive: true },
        data: None,
    })
}

#[test]
fn bind_mount_moves_a_cloned_tree() {
    let bind: BindMount = bind_mount("/from", "/to");
    assert_eq!(bind.next(), opened());
    let bind = bind.resume(worked());
    assert_eq!(
        bind.next(),
        Next::Ask(Request::MoveMount { to: text("/to"), empty_path: true })
    );
    assert_eq!(bind.resume(worked()).next(), Next::Finished(Ok(())));
}

#[test]
fn bind_mount_falls_back_from_either_call() {
    assert_eq!(bind_mount("/from", "/to").resume(failed("a")).next(), bound());
    let bind = bind_mount("/from", "/to").resume(worked()).resume(failed("a"));
    assert_eq!(bind.next(), bound());
    match bind.resume(failed("EPERM")).next() {
        Next::Finished(Err(err)) => {
            assert_eq!(err.message(), "bind mount /from -> /to: EPERM");
        }
        other => panic!("{other:?}"),
    }
}

fn cleanup() -> StagingCleanup {
    cleanup_staging_mount("/staging")
}

fn message(cleanup: StagingCleanup) -> String {
    match cleanup.next() {
        Next::Finished(Err(err)) => err.message(),
        other => panic!("{other:?}"),
    }
}

#[test]
fn cleanup_detaches_and_removes() {
    let step = cleanup();
    assert_eq!(step.next(), Next::Ask(Request::IsMounted(text("/staging"))));
    let step = step.resume(Reply::Checked(Ok(true)));
    assert_eq!(
        step.next(),
        Next::Ask(Request::Unmount { path: text("/staging"), detach: true })
    );
    let step = step.resume(Reply::Unmounted(Ok(())));
    assert_eq!(step.next(), Next::Ask(Request::IsMounted(text("/staging"))));
    let step = step.resume(Reply::Checked(Ok(false)));
    assert_eq!(step.next(), Next::Ask(Request::RemoveFault));
    let step = step.resume(Reply::Flag(false));
    assert_eq!(step.next(), Next::Ask(Request::RemoveDirAll(text("/staging"))));
    assert_eq!(step.resume(Reply::Removed(Ok(()))).next(), Next::Finished(Ok(())));
}

#[test]
fn cleanup_tolerates_only_unmount_errors_for_nothing_mounted() {
    let detach = || cleanup().resume(Reply::Checked(Ok(true)));
    let errno = rustix::io::Errno::NOENT.raw_os_error();
    let step = detach().resume(Reply::Unmounted(Err((errno, text("gone")))));
    assert_eq!(step.next(), Next::Ask(Request::IsMounted(text("/staging"))));
    let errno = rustix::io::Errno::INVAL.raw_os_error();
    let step = detach().resume(Reply::Unmounted(Err((errno, text("no mount")))));
    assert_eq!(step.next(), Next::Ask(Request::IsMounted(text("/staging"))));
    let errno = rustix::io::Errno::BUSY.raw_os_error();
    let step = detach().resume(Reply::Unmounted(Err((errno, text("busy")))));
    assert_eq!(
        message(step),
        "detach intermediate overlay staging failed: path=/staging, error=busy"
    );
}

#[test]
fn cleanup_reports_what_is_still_mounted() {
    let step = cleanup().resume(Reply::Checked(Ok(false))).resume(Reply::Checked(Ok(true)));
    assert_eq!(
        message(step),
        "intermediate overlay staging still mounted after detach: path=/staging"
    );
}

#[test]
fn injected_staging_remove_failure_is_reported() {
    let step = cleanup()
        .resume(Reply::Checked(Ok(false)))
        .resume(Reply::Checked(Ok(false)))
        .resume(Reply::Flag(true));
    assert_eq!(
        message(step),
        "injected intermediate overlay staging remove failure: path=/staging"
    );
}

#[test]
fn cleanup_propagates_mountinfo_probe_failures() {
    assert_eq!(message(cleanup().resume(Reply::Checked(Err(text("mountinfo"))))), "mountinfo");
    let step = cleanup()
        .resume(Reply::Checked(Ok(false)))
        .resume(Reply::Checked(Err(text("mountinfo again"))));
    assert_eq!(message(step), "mountinfo again");
}

#[test]
fn cleanup_of_a_missing_directory_succeeds() {
    let remove = || {
        cleanup()
            .resume(Reply::Checked(Ok(false)))
            .resume(Reply::Checked(Ok(false)))
            .resume(Reply::Flag(false))
    };
    let step = remove().resume(Reply::Removed(Err((true, text("missing")))));
    assert_eq!(step.next(), Next::Finished(Ok(())));
    let step = remove().resume(Reply::Removed(Err((false, text("busy")))));
    assert_eq!(
        message(step),
        "remove intermediate overlay staging failed: path=/staging, error=busy"
    );
}

fn child(roots: &[&str], register: bool) -> ChildMount {
    mount_overlay_child("/system/app", "/app", &texts(roots), "./app", "/stage", "KSU", register)
}

fn yes() -> Reply {
    Reply::Flag(true)
}

fn no() -> Reply {
    Reply::Flag(false)
}

#[test]
fn untouched_child_is_bound_back_and_reported() {
    let mount = child(&["/m1", "/m2"], true);
    assert_eq!(mount.next(), Next::Ask(Request::Exists(text("/m1/app"))));
    let mount = mount.resume(no());
    assert_eq!(mount.next(), Next::Ask(Request::Exists(text("/m2/app"))));
    let mount = mount.resume(no());
    assert_eq!(mount.next(), bind_mount("./app", "/system/app").next());
    let mount = mount.resume(worked()).resume(worked());
    assert_eq!(mount.next(), Next::Ask(Request::SendUnmountable(text("/system/app"))));
    let mount = mount.resume(Reply::Done);
    assert_eq!(
        mount.next(),
        Next::Ask(Request::Report(MountEffect::Target(text("/system/app"))))
    );
    assert_eq!(mount.resume(Reply::Done).next(), Next::Finished(Ok(())));
}

#[test]
fn child_with_no_modules_is_bound_back() {
    assert_eq!(child(&[], false).next(), bind_mount("./app", "/system/app").next());
}

#[test]
fn failed_bind_of_a_child_is_its_error() {
    let mount = child(&[], true).resume(failed("a")).resume(failed("b"));
    assert_eq!(
        mount.next(),
        Next::Finished(Err(MountError::BindMount {
            from: text("./app"),
            to: text("/system/app"),
            cause: text("b"),
        }))
    );
}

#[test]
fn child_overlay_stacks_directories_in_module_order() {
    let mount = child(&["/m1", "/m2", "/m3"], false).resume(no()).resume(yes());
    assert_eq!(mount.next(), Next::Ask(Request::IsDir(text("./app"))));
    let mount = mount.resume(yes());
    assert_eq!(mount.next(), Next::Ask(Request::IsDir(text("/m1/app"))));
    let mount = mount.resume(no());
    assert_eq!(mount.next(), Next::Ask(Request::Exists(text("/m1/app"))));
    let mount = mount.resume(no()).resume(yes()).resume(yes());
    assert_eq!(
        mount.next(),
        legacy("KSU", target("/system/app"), "lowerdir=/m2/app:/m3/app:./app")
    );
    let mount = mount.resume(worked());
    assert_eq!(
        mount.next(),
        Next::Ask(Request::Report(MountEffect::Target(text("/system/app"))))
    );
}

#[test]
fn child_that_is_no_directory_is_left_alone() {
    let mount = child(&["/m1"], true).resume(yes()).resume(no());
    assert_eq!(mount.next(), Next::Finished(Ok(())));
    let mount = child(&["/m1", "/m2"], true)
        .resume(yes())
        .resume(yes())
        .resume(yes())
        .resume(no())
        .resume(yes());
    assert_eq!(mount.next(), Next::Finished(Ok(())));
    let mount = child(&["/m1"], true).resume(yes()).resume(yes()).resume(no()).resume(no());
    assert_eq!(mount.next(), Next::Finished(Ok(())));
}

#[test]
fn failed_child_overlay_names_its_mount_point() {
    let mount = child(&["/m1"], true)
        .resume(yes())
        .resume(yes())
        .resume(yes())
        .resume(failed("EBUSY"));
    match mount.next() {
        Next::Finished(Err(err)) => assert_eq!(
            err.message(),
            "child overlay failed: mount_point=/system/app: legacy overlay mount /system/app: EBUSY"
        ),
        other => panic!("{other:?}"),
    }
}

fn bytes(list: &[&str]) -> Vec<Vec<u8>> {
    list.iter().map(|s| s.as_bytes().to_vec()).collect()
}

fn overlay() -> OverlayMount {
    mount_overlay("/system", &texts(&["/m1"]), None, None, "/stage", "KSU", false)
}

#[test]
fn overlay_mounts_the_root_and_then_its_children() {
    let mount = overlay();
    assert_eq!(mount.next(), Next::Ask(Request::ReadCurrentDir));
    let mount = mount.resume(worked());
    assert_eq!(mount.next(), Next::Ask(Request::ChangeDir(text("/system"))));
    let mount = mount.resume(worked());
    assert_eq!(mount.next(), Next::Ask(Request::ReadMounts));
    let points = bytes(&["/", "/system", "/system/b", "/system/a", "/system_ext", "/system/b"]);
    let mount = mount.resume(Reply::Mounts(Ok(points)));
    assert_eq!(mount.next(), legacy("KSU", target("/system"), "lowerdir=/m1:/system"));
    let mount = mount.resume(worked());
    assert_eq!(
        mount.next(),
        Next::Ask(Request::Report(MountEffect::Target(text("/system"))))
    );
    let mount = mount.resume(Reply::Done);
    assert_eq!(mount.next(), Next::Ask(Request::Exists(text("./a"))));
    let mount = mount.resume(no());
    assert_eq!(mount.next(), Next::Ask(Request::Exists(text("./b"))));
    let mount = mount.resume(yes());
    assert_eq!(mount.next(), Next::Ask(Request::Exists(text("/m1/b"))));
    let mount = mount.resume(no());
    assert_eq!(mount.next(), bind_mount("./b", "/system/b").next());
    let mount = mount.resume(worked()).resume(worked());
    assert_eq!(
        mount.next(),
        Next::Ask(Request::Report(MountEffect::Target(text("/system/b"))))
    );
    let mount = mount.resume(Reply::Done);
    assert_eq!(mount.next(), Next::Ask(Request::RestoreDir));
    assert_eq!(mount.resume(Reply::Done).next(), Next::Finished(Ok(())));
}

fn overlay_message(mount: OverlayMount) -> String {
    let mount = match mount.next() {
        Next::Ask(Request::RestoreDir) => mount.resume(Reply::Done),
        _ => mount,
    };
    match mount.next() {
        Next::Finished(Err(err)) => err.message(),
        other => panic!("{other:?}"),
    }
}

#[test]
fn overlay_errors_say_what_failed() {
    assert_eq!(
        overlay_message(overlay().resume(failed("ENOENT"))),
        "read current directory: ENOENT"
    );
    assert_eq!(
        overlay_message(overlay().resume(worked()).resume(failed("ENOENT"))),
        "chdir to /system: ENOENT"
    );
    let opened = || overlay().resume(worked()).resume(worked());
    assert_eq!(
        overlay_message(opened().resume(Reply::Mounts(Err(text("unreadable"))))),
        "unreadable"
    );
    let root = || opened().resume(Reply::Mounts(Ok(bytes(&["/system/a"]))));
    assert_eq!(
        overlay_message(root().resume(failed("EPERM"))),
        "mount overlayfs for root failed: legacy overlay mount /system: EPERM"
    );
    let failed_child = root()
        .resume(worked())
        .resume(Reply::Done)
        .resume(yes())
        .resume(no())
        .resume(failed("a"))
        .resume(failed("EPERM"));
    assert!(matches!(failed_child.phase, OverlayPhase::Restore(Err(_))));
    assert_eq!(overlay_message(failed_child), "bind mount ./a -> /system/a: EPERM");
}

#[test]
fn children_of_the_file_system_root_are_rebuilt() {
    let mount = mount_overlay("/", &texts(&["/m1"]), None, None, "/stage", "KSU", false)
        .resume(worked())
        .resume(worked())
        .resume(Reply::Mounts(Ok(bytes(&["/", "/system", "/data"]))))
        .resume(worked())
        .resume(Reply::Done);
    assert_eq!(mount.next(), Next::Ask(Request::Exists(text("./data"))));
    let mount = mount.resume(yes());
    assert_eq!(mount.next(), Next::Ask(Request::Exists(text("/m1/data"))));
    let mount = mount.resume(no()).resume(worked());
    assert_eq!(
        mount.next(),
        Next::Ask(Request::MoveMount { to: text("/data"), empty_path: true })
    );
    let mount = mount.resume(worked()).resume(Reply::Done);
    assert_eq!(mount.next(), Next::Ask(Request::Exists(text("./system"))));
    let mount = mount.resume(no());
    assert_eq!(mount.next(), Next::Ask(Request::RestoreDir));
    assert_eq!(mount.resume(Reply::Done).next(), Next::Finished(Ok(())));
}

#[test]
fn children_without_a_relative_path_are_passed_over() {
    let mount = overlay()
        .resume(worked())
        .resume(worked())
        .resume(Reply::Mounts(Ok(bytes(&["//system/a", "/system/./b"]))))
        .resume(worked())
        .resume(Reply::Done);
    assert_eq!(mount.next(), Next::Ask(Request::Exists(text("././b"))));
    let mount = mount.resume(no());
    assert_eq!(mount.next(), Next::Ask(Request::RestoreDir));
    assert_eq!(mount.resume(Reply::Done).next(), Next::Finished(Ok(())));
}

#[test]
fn overlay_goes_back_only_where_it_went_to_the_root() {
    let mount = overlay().resume(failed("a"));
    assert!(matches!(mount.next(), Next::Finished(Err(_))));
    let mount = overlay().resume(worked()).resume(failed("a"));
    assert!(matches!(mount.next(), Next::Finished(Err(_))));
    let mount = overlay().resume(worked()).resume(worked()).resume(Reply::Mounts(Err(text("a"))));
    assert_eq!(mount.next(), Next::Ask(Request::RestoreDir));
}

#[test]
fn collected_mount_points_are_sorted_once_each_and_valid_utf8() {
    let mut mounts = bytes(&["/system/z", "/system/a/b", "/system", "/system/a", "/system/a"]);
    mounts.push(b"/system/\xff".to_vec());
    mounts.extend(bytes(&["/systemd/x", "//system//q/.", "/system/\u{e9}"]));
    assert_eq!(
        collect_child_mount_points("/system", &mounts),
        texts(&["//system//q/.", "/system/a", "/system/a/b", "/system/z", "/system/\u{e9}"])
    );
}

#[test]
fn collected_mount_points_agree_with_std_paths() {
    let samples = [
        "", "/", "//", ".", "./", "./a", "a", "a/", "a/b", "a/./b", "a//b", "/a", "/a/", "/a/.",
        "/./a", "/a/b", "/a/b/c", "/ab", "/a/../b", "..", "../a", "/.a", "/a/.b", "./.", "././a",
        "a/.", "/.", "/..", "/a/b/../c",
    ];
    for root in samples {
        let mut expected: Vec<String> = samples
            .iter()
            .filter(|point| {
                Path::new(point).starts_with(Path::new(root)) && Path::new(point) != Path::new(root)
            })
            .map(|point| text(point))
            .collect();
        expected.sort();
        expected.dedup();
        assert_eq!(collect_child_mount_points(root, &bytes(&samples)), expected, "root {root:?}");
    }
}

#[test]
fn relative_path_completes_the_root() {
    for (root, point) in [("/r\u{e9}", "/r\u{e9}/x"), ("", "/x"), ("/a", "/a/"), ("/a", "/a//b")] {
        let relative = child_relative_path(root, point).unwrap();
        assert_eq!(format!("{root}{relative}"), point);
    }
    for (root, point, relative) in [
        ("/", "/system", "/system"),
        ("/", "/a/b", "/a/b"),
        ("/a/", "/a/b", "/b"),
        ("/a//", "/a//b", "/b"),
        ("/r\u{e9}/", "/r\u{e9}/x", "/x"),
    ] {
        assert_eq!(child_relative_path(root, point), Some(text(relative)));
        assert_eq!(format!("{}{relative}", &root[..root.len() - 1]), point);
    }
    for (root, point, relative) in
        [("/a/", "/a//b", "/b"), ("/", "//b", "/b"), ("/a/", "/a//", "/")]
    {
        assert_eq!(child_relative_path(root, point), Some(text(relative)));
        assert_eq!(format!("{root}{relative}"), point);
    }
    for (root, point) in [
        ("/", "/"),
        ("/a/", "/a/"),
        ("/a/", "/a"),
        ("/a/", "/ab"),
        ("/", "b"),
        ("/a/b", "/a"),
        ("", ""),
        ("", "x"),
    ] {
        assert_eq!(child_relative_path(root, point), None);
    }
}

#[test]
fn relative_paths_compose() {
    for (root, middle, point) in [
        ("/", "/system/app", "/system/app/x/y"),
        ("/system", "/system/app", "/system/app/x/y"),
        ("/system/", "/system/app", "/system/app/x/y"),
        ("/x", "/x/a/", "/x/a//b"),
        ("/x/", "/x/a/", "/x/a//"),
    ] {
        let first = child_relative_path(root, middle).unwrap();
        let second = child_relative_path(middle, point).unwrap();
        assert_eq!(child_relative_path(root, point), Some(format!("{first}{second}")));
    }
}

#[test]
fn relative_paths_share_a_slash() {
    for root in ["/", "/x", "/x/"] {
        let first = child_relative_path(root, "/x/a/").unwrap();
        assert!(first.ends_with("a/"));
        assert_eq!(child_relative_path("/x/a/", "/x/a/b"), Some(text("/b")));
        assert_eq!(child_relative_path(root, "/x/a/b"), Some(format!("{first}b")));
    }
}

/// Reads mount data back the way the kernel does: fields end at separators that no backslash
/// stands before.
fn fields(text: &str, sep: char, keep: bool) -> Vec<String> {
    let mut fields = vec![String::new()];
    let mut quoted = false;
    for c in text.chars() {
        if quoted {
            fields.last_mut().unwrap().push(c);
            quoted = false;
        } else if c == '\\' {
            if keep {
                fields.last_mut().unwrap().push(c);
            }
            quoted = true;
        } else if c == sep {
            fields.push(String::new());
        } else {
            fields.last_mut().unwrap().push(c);
        }
    }
    fields
}

#[test]
fn legacy_data_reads_back() {
    let layers = ["/a,b", "/c:d", "/e\\f", "/\\", "/:,"];
    let mount = single(&layers, Some("/u,:\\"), Some("/w:"), "overlay")
        .resume(yes())
        .resume(yes())
        .resume(failed("x"));
    let data = match mount.next() {
        Next::Ask(Request::Mount { data: Some(data), .. }) => data,
        other => panic!("{other:?}"),
    };
    let options = fields(&data, ',', true);
    assert_eq!(options.len(), 3);
    let lower = options[0].strip_prefix("lowerdir=").unwrap();
    assert_eq!(fields(lower, ':', false), texts(&layers));
    let upper = options[1].strip_prefix("upperdir=").unwrap();
    assert_eq!(fields(upper, ',', false), vec![text("/u,:\\")]);
    let work = options[2].strip_prefix("workdir=").unwrap();
    assert_eq!(fields(work, ',', false), vec![text("/w:")]);
}

#[test]
fn escaping_handles_plain_and_empty_text() {
    assert_eq!(escape_mount_option_value(""), "");
    assert_eq!(escape_mount_option_value("/plain-\u{e9}"), "/plain-\u{e9}");
    assert_eq!(escape_mount_option_value("\\"), "\\\\");
}

#[test]
fn different_values_have_different_escaped_forms() {
    let values = ["", "\\", ",", ":", "\\,", "\\:", ",\\", "\\\\", "a", "\\a"];
    for a in values {
        for b in values {
            assert_eq!(a == b, escape_mount_option_value(a) == escape_mount_option_value(b));
        }
    }
}

#[test]
fn finished_operations_keep_their_result() {
    let mount = stacked(3, "overlay").resume(worked());
    assert_eq!(mount.next(), Next::Finished(Ok(())));
    let mount = mount.resume(failed("late")).resume(Reply::Done).resume(Reply::Flag(true));
    assert_eq!(mount.next(), Next::Finished(Ok(())));
    let mount = overlay().resume(failed("early")).resume(worked()).resume(Reply::Done);
    assert_eq!(overlay_message(mount), "read current directory: early");
}

#[test]
fn stacked_overlay_ends_within_its_bound() {
    for count in [1, 63, 64, 125, 126, 300] {
        let mut mount = stacked(count, "overlay");
        let steps = if count + 1 <= 64 { 0 } else { (count + 1 - 64 + 61) / 62 };
        let mut replies = 0;
        loop {
            let reply = match mount.next() {
                Next::Finished(result) => {
                    assert_eq!(result, Ok(()));
                    break;
                }
                Next::Ask(Request::CreateStagingDir { .. }) => Reply::Directory(Ok(text("/staging"))),
                Next::Ask(Request::Fsopen { .. }) => failed("unsupported"),
                Next::Ask(Request::Mount { .. }) => worked(),
                Next::Ask(Request::Report(_)) => Reply::Done,
                other => panic!("{other:?}"),
            };
            mount = mount.resume(reply);
            replies += 1;
        }
        assert_eq!(replies, 4 * steps + 2);
        assert!(replies <= 5 * steps + 4);
    }
}

#[test]
fn canonical_children_have_relative_paths() {
    let points = bytes(&["/system/a", "/system/a/b", "/system", "/", "/system_ext", "/system/\u{e9}"]);
    let list = collect_child_mount_points("/system", &points);
    assert_eq!(list, texts(&["/system/a", "/system/a/b", "/system/\u{e9}"]));
    for point in list {
        assert!(child_relative_path("/system", &point).is_some());
    }
    let list = collect_child_mount_points("/", &points);
    assert_eq!(list.len(), 5);
    for point in list {
        assert_eq!(child_relative_path("/", &point), Some(point));
    }
}

#[test]
fn root_overlay_uses_its_upper_and_work_directories() {
    let mount = mount_overlay(
        "/system",
        &texts(&["/m1", "/m2"]),
        Some(text("/work")),
        Some(text("/upper")),
        "/stage",
        "KSU",
        true,
    )
    .resume(worked())
    .resume(worked())
    .resume(Reply::Mounts(Ok(Vec::new())));
    assert_eq!(mount.next(), Next::Ask(Request::UpperExists(text("/upper"))));
    let mount = mount.resume(yes());
    assert_eq!(mount.next(), Next::Ask(Request::WorkExists(text("/work"))));
    let mount = mount.resume(yes());
    assert_eq!(
        mount.next(),
        fsopen(Some("/upper"), Some("/work"), "/m1:/m2:/system", "KSU", target("/system"))
    );
}

#[test]
fn staging_directories_are_made_below_the_staging_root() {
    let staging = Next::Ask(Request::CreateStagingDir { root: text("/stage") });
    let mut modules = layers(MAX_LAYERS);
    assert_eq!(stacked(2 * MAX_LAYERS, "overlay").next(), staging);

    let mut child = mount_overlay_child(
        "/system/app",
        "/app",
        &modules,
        "./app",
        "/stage",
        "overlay",
        false,
    )
    .resume(yes())
    .resume(yes());
    for _ in 0..MAX_LAYERS {
        child = child.resume(yes());
    }
    assert_eq!(child.next(), staging);

    let overlay = mount_overlay("/system", &modules, None, None, "/stage", "KSU", false)
        .resume(worked())
        .resume(worked())
        .resume(Reply::Mounts(Ok(Vec::new())));
    assert_eq!(overlay.next(), staging);
    modules.truncate(MAX_LAYERS - 1);
    let overlay = mount_overlay("/system", &modules, None, None, "/stage", "KSU", false)
        .resume(worked())
        .resume(worked())
        .resume(Reply::Mounts(Ok(Vec::new())));
    assert!(matches!(overlay.next(), Next::Ask(Request::Mount { .. })));
}

fn effect_at(place: Place) -> MountEffect {
    match place {
        Place::Target(path) => MountEffect::Target(path),
        Place::Staging(path) => MountEffect::Staging(path),
    }
}

/// Runs an overlay with many modules and two sub-mounts, of which the modules have something for the
/// first alone. The mount at `refused` fails in every way in which it is tried. Gives what was
/// mounted, what was reported, and the result.
fn run_overlay(refused: usize) -> (Vec<MountEffect>, Vec<MountEffect>, Result<(), MountError>) {
    let mut mount =
        mount_overlay("/system", &layers(MAX_LAYERS), None, None, "/stage", "overlay", true);
    let mut made: Vec<MountEffect> = Vec::new();
    let mut reported: Vec<MountEffect> = Vec::new();
    let mut dirs = 0;
    loop {
        let reply = match mount.next() {
            Next::Finished(result) => {
                assert_eq!(made, reported);
                return (made, reported, result);
            }
            Next::Ask(request) => match request {
                Request::ReadMounts => {
                    Reply::Mounts(Ok(bytes(&["/system/b", "/system/a", "/data"])))
                }
                Request::CreateStagingDir { root } => {
                    dirs += 1;
                    Reply::Directory(Ok(format!("{root}/{dirs}")))
                }
                Request::Exists(path) => Reply::Flag(path.starts_with('.') || path.ends_with("/a")),
                Request::IsDir(_) => yes(),
                Request::Fsopen { .. } if made.len() == refused => failed("ENOSYS"),
                Request::MoveMount { .. } if made.len() == refused => failed("EINVAL"),
                Request::Mount { .. } if made.len() == refused => failed("EPERM"),
                Request::Fsopen { dest, .. } => {
                    made.push(effect_at(dest));
                    worked()
                }
                Request::Mount { target, .. } => {
                    made.push(effect_at(target));
                    worked()
                }
                Request::MoveMount { to, .. } => {
                    made.push(MountEffect::Target(to));
                    worked()
                }
                Request::Report(effect) => {
                    reported.push(effect);
                    Reply::Done
                }
                Request::RestoreDir => {
                    assert_eq!(made, reported);
                    Reply::Done
                }
                Request::SendUnmountable(_) => Reply::Done,
                _ => worked(),
            },
        };
        assert!(made.len() - reported.len() <= 1);
        mount = mount.resume(reply);
    }
}

#[test]
fn overlay_reports_what_it_mounts_and_the_root_first() {
    let all = vec![
        MountEffect::Staging(text("/stage/1")),
        MountEffect::Target(text("/system")),
        MountEffect::Staging(text("/stage/2")),
        MountEffect::Target(text("/system/a")),
        MountEffect::Target(text("/system/b")),
    ];
    let (made, reported, result) = run_overlay(all.len());
    assert_eq!(made, all);
    assert_eq!(reported, all);
    assert_eq!(result, Ok(()));
    for refused in 0..all.len() {
        let (made, reported, result) = run_overlay(refused);
        assert_eq!(made, all[..refused]);
        assert_eq!(reported, all[..refused]);
        assert!(result.is_err());
    }
}
