use std::sync::atomic::AtomicU64;

use linura::observation::audio::{
    parse_wireplumber_sink_snapshot, pipewire_output_node_id, resolve_sink, PipeWireSink,
};
use linura::observation::compositor::{hyprland_socket_candidates, HYPRLAND_MAX_RUNTIME_ENTRIES, HYPRLAND_SOCKET_NAME};
use linura::observation::error::{require_available, ProviderAvailability, ProviderError, ProviderHealth};
use linura::observation::platform::{
    audio_identity, parse_os_release_id, parse_os_release_scalar, require_networkmanager_selected_device,
    root_filesystem_type, safe_instance_signature, valid_hyprland_version_response, validate_runtime_path,
    LogindSessionTarget, NETWORKMANAGER_DEVICE_TYPE_LOOPBACK,
};
use linura::observation::sequence::{next_sequence, next_sequence_after};
use linura::observation::units::{device_interface, unit_name, SYSTEMD_ACTIVE_ENTER_TIMESTAMP_MONOTONIC_ATTRIBUTE};

#[test]
fn systemd_resource_parser_is_strict() {
    assert_eq!(unit_name("systemd:unit:sshd.service"), Ok("sshd.service".to_string()));
    assert!(matches!(unit_name("service:sshd"), Err(ProviderError::Unsupported(_))));
}

#[test]
fn systemd_restart_verification_attribute_is_canonical() {
    assert_eq!(
        SYSTEMD_ACTIVE_ENTER_TIMESTAMP_MONOTONIC_ATTRIBUTE,
        "active_enter_timestamp_monotonic"
    );
}

#[test]
fn networkmanager_device_resource_parser_is_strict() {
    assert_eq!(device_interface("networkmanager:device:eth0"), Ok("eth0".to_string()));
    assert!(matches!(
        device_interface("networkmanager:manager"),
        Err(ProviderError::Unsupported(_))
    ));
}

#[test]
fn pipewire_output_resource_is_exact_and_canonical() {
    assert_eq!(pipewire_output_node_id("audio:session:output:42"), Ok(42));
    for value in [
        "audio:session:default-output",
        "audio:session:output:",
        "audio:session:output:042",
        "audio:session:output:+42",
        "audio:session:input:42",
    ] {
        assert!(pipewire_output_node_id(value).is_err(), "{value}");
    }
}

#[test]
fn wireplumber_snapshot_parser_requires_canonical_identity_and_order() {
    let sinks = parse_wireplumber_sink_snapshot(
        "protocol\t1\nsink\t42\t9876\talsa_output.pci\t1\t40\t0\nsink\t77\t9999\tusb_dac\t0\t125\t1\n",
    )
    .unwrap_or_else(|error| unreachable!("{error:?}"));
    assert_eq!(sinks.len(), 2);
    assert_eq!(sinks[0].node_id, 42);
    assert_eq!(sinks[0].object_serial, 9_876);
    assert_eq!(sinks[0].node_name, "alsa_output.pci");
    assert!(sinks[0].is_default);
    assert_eq!(sinks[0].volume_percent, 40);
    assert!(!sinks[0].muted);
    assert_eq!(sinks[1].volume_percent, 125);
    assert!(sinks[1].muted);

    for invalid in [
        "sink\t42\t9876\tsink\t1\t40\t0\n",
        "protocol\t2\n",
        "protocol\t1\nsink\t42\t9876\tsink\t1\t40\t0\nsink\t42\t9999\tother\t0\t40\t0\n",
        "protocol\t1\nsink\t77\t9876\tsink\t0\t40\t0\nsink\t42\t9999\tother\t0\t40\t0\n",
        "protocol\t1\nsink\t42\t9876\tsink\t1\t40\t0\nsink\t77\t9876\tother\t0\t40\t0\n",
        "protocol\t1\nsink\t42\t9876\tsink\t1\t40\t0\nsink\t77\t9999\tother\t1\t40\t0\n",
        "protocol\t1\nsink\t4294967295\t9876\tsink\t0\t40\t0\n",
        "protocol\t1\nsink\t042\t9876\tsink\t0\t40\t0\n",
    ] {
        assert!(parse_wireplumber_sink_snapshot(invalid).is_err(), "{invalid}");
    }
}

#[test]
fn wireplumber_snapshot_parser_rejects_control_material_and_unbounded_volume() {
    assert!(
        parse_wireplumber_sink_snapshot("protocol\t1\nsink\t42\t9876\tbad\rname\t0\t40\t0\n",).is_err()
    );
    assert!(
        parse_wireplumber_sink_snapshot("protocol\t1\nsink\t42\t9876\tsink\t0\t1001\t0\n",).is_err()
    );
}

#[test]
fn sequence_is_monotonic_and_fail_closed_on_overflow() {
    let sequence = AtomicU64::new(0);
    assert_eq!(next_sequence(&sequence), Ok(1));
    assert_eq!(next_sequence(&sequence), Ok(2));
    let exhausted = AtomicU64::new(u64::MAX);
    assert!(next_sequence(&exhausted).is_err());
}

#[test]
fn session_target_rejects_unbounded_or_unsafe_identifiers() {
    assert!(LogindSessionTarget::new("2".to_string(), 1000).is_ok());
    assert!(LogindSessionTarget::new("../../other".to_string(), 1000).is_err());
    assert!(LogindSessionTarget::new("bad\nvalue".to_string(), 1000).is_err());
}

#[test]
fn os_release_id_accepts_quoted_and_unquoted_values() {
    assert_eq!(parse_os_release_id("NAME=Arch Linux\nID=arch\n"), Ok("arch".to_owned()));
    assert_eq!(parse_os_release_id("ID=\"Arch\"\n"), Ok("arch".to_owned()));
    assert!(parse_os_release_id("ID=\"arch\n").is_err());
    assert!(parse_os_release_id("ID=arch\nID=fedora\n").is_err());
    assert!(parse_os_release_id("NAME=Arch Linux\n").is_err());
}

#[test]
fn root_filesystem_parser_reads_kernel_mountinfo_identity() {
    let btrfs = "36 25 0:31 /@ / rw,relatime - btrfs /dev/vda2 rw,ssd\n";
    assert_eq!(root_filesystem_type(btrfs), Ok("btrfs".to_owned()));
    let ext4 = "36 25 8:2 / / rw,relatime - ext4 /dev/vda2 rw\n";
    assert_eq!(root_filesystem_type(ext4), Ok("ext4".to_owned()));
    assert!(root_filesystem_type("malformed\n").is_err());
}

#[test]
fn network_provider_requires_selected_non_loopback_management_evidence() {
    assert!(require_networkmanager_selected_device(&[(true, 1)]).is_ok());
    assert!(require_networkmanager_selected_device(&[(false, 1)]).is_err());
    assert!(require_networkmanager_selected_device(&[(true, NETWORKMANAGER_DEVICE_TYPE_LOOPBACK,)]).is_err());
    assert!(require_networkmanager_selected_device(&[
        (false, 1),
        (true, NETWORKMANAGER_DEVICE_TYPE_LOOPBACK),
    ])
    .is_err());
}

#[test]
fn audio_provider_identity_preserves_known_mismatches_for_control() {
    assert_eq!(audio_identity(true, true), "pipewire-wireplumber");
    assert_eq!(audio_identity(true, false), "pipewire-only");
    assert_eq!(audio_identity(false, true), "wireplumber-only");
    assert_eq!(audio_identity(false, false), "absent");
}

#[test]
fn runtime_path_validation_is_canonical_and_filesystem_io_free() {
    assert!(validate_runtime_path(b"/run/user/1000", 1000).is_ok());
    assert!(validate_runtime_path(b"/run/user/1001", 1000).is_err());
    assert!(validate_runtime_path(b"/run/user/1000/../1000", 1000).is_err());
}

#[test]
fn compositor_ipc_response_must_identify_hyprland() {
    assert!(valid_hyprland_version_response("Hyprland, built from branch main at commit abc\n"));
    assert!(valid_hyprland_version_response("\n  Hyprland 0.55.0 built from branch main\n"));
    assert!(!valid_hyprland_version_response("sway version 1.10\n"));
    assert!(!valid_hyprland_version_response(""));
}

#[test]
fn runtime_path_comparison_ignores_redundant_separators() {
    assert!(validate_runtime_path(b"/run/user/1000/", 1000).is_ok());
    assert!(validate_runtime_path(b"//run//user/./1000", 1000).is_ok());
    assert!(validate_runtime_path(b"run/user/1000", 1000).is_err());
}

#[test]
fn os_release_scalar_rejects_escapes_and_stray_quotes() {
    assert_eq!(parse_os_release_scalar(&"'arch'".chars().collect::<Vec<_>>()), Ok("arch".chars().collect()));
    assert!(parse_os_release_scalar(&"\"a\\b\"".chars().collect::<Vec<_>>()).is_err());
    assert!(parse_os_release_scalar(&"ar'ch".chars().collect::<Vec<_>>()).is_err());
    assert!(parse_os_release_scalar(&"   ".chars().collect::<Vec<_>>()).is_err());
    assert_eq!(parse_os_release_id("# comment\n  ID=Fedora  \n"), Ok("fedora".to_owned()));
    assert!(parse_os_release_id("ID=fed ora\n").is_err());
}

#[test]
fn root_filesystem_uses_the_first_root_mount_and_requires_a_type() {
    let text = "1 2 0:1 / /boot rw - vfat /dev/x rw\n2 3 0:2 / / rw - XFS /dev/y rw\n3 4 0:3 / / rw - ext4 /dev/z rw\n";
    assert_eq!(root_filesystem_type(text), Ok("xfs".to_owned()));
    assert!(root_filesystem_type("36 25 8:2 / / rw - \n").is_err());
}

#[test]
fn hyprland_reply_skips_blank_lines_and_ignores_case() {
    assert!(valid_hyprland_version_response("\n\n   \nHYPRLAND v1\n"));
    assert!(!valid_hyprland_version_response("\n\nsway\nHyprland\n"));
}

#[test]
fn instance_signatures_are_single_safe_components() {
    assert!(safe_instance_signature("abc_123-x.y"));
    assert!(!safe_instance_signature("."));
    assert!(!safe_instance_signature(".."));
    assert!(!safe_instance_signature(""));
    assert!(!safe_instance_signature("a/b"));
    assert!(!safe_instance_signature(&"a".repeat(129)));
}

#[test]
fn sequence_successor_is_exact() {
    assert_eq!(next_sequence_after(41), Ok(42));
    assert!(matches!(next_sequence_after(u64::MAX), Err(ProviderError::Internal(_))));
}

#[test]
fn unavailable_provider_reports_its_reason() {
    let degraded = ProviderHealth { availability: ProviderAvailability::Degraded, reason: None };
    assert!(require_available(&degraded).is_ok());
    let down = ProviderHealth { availability: ProviderAvailability::Unavailable, reason: Some("bus down".to_string()) };
    assert_eq!(require_available(&down), Err(ProviderError::Unavailable("bus down".to_string())));
    let silent = ProviderHealth { availability: ProviderAvailability::Unavailable, reason: None };
    assert_eq!(
        require_available(&silent),
        Err(ProviderError::Unavailable("provider is unavailable".to_string()))
    );
}

#[test]
fn sinks_are_resolved_by_default_marker_or_node_id() {
    let sinks = parse_wireplumber_sink_snapshot(
        "protocol\t1\n\nsink\t42\t9876\talsa\t0\t40\t0\nsink\t77\t9999\tusb\t1\t125\t1\n",
    )
    .unwrap_or_else(|error| unreachable!("{error:?}"));
    let default = resolve_sink(&sinks, "audio:session:default-output").unwrap_or_else(|e| unreachable!("{e:?}"));
    assert_eq!(default.node_id, 77);
    let by_id = resolve_sink(&sinks, "audio:session:output:42").unwrap_or_else(|e| unreachable!("{e:?}"));
    assert_eq!(by_id.node_name, "alsa");
    assert!(matches!(resolve_sink(&sinks, "audio:session:output:5"), Err(ProviderError::Unavailable(_))));
    let none: Vec<PipeWireSink> = Vec::new();
    assert!(matches!(resolve_sink(&none, "audio:session:default-output"), Err(ProviderError::Unavailable(_))));
}

#[test]
fn hyprland_socket_candidates_use_only_unique_bounded_kernel_socket_paths() {
    let table = "Num RefCount Protocol Flags Type St Inode Path\n\
         000: 00000002 00000000 00010000 0001 01 1 /run/user/1000/hypr/good/.socket.sock\n\
         001: 00000002 00000000 00010000 0001 03 2 /run/user/1000/hypr/good/.socket.sock\n\
         002: 00000002 00000000 00010000 0001 01 3 /run/user/1000/hypr/../../bad/.socket.sock\n\
         003: 00000002 00000000 00010000 0001 01 4 /run/user/1000/other/good/.socket.sock\n\
         004: 00000002 00000000 00010000 0001 01 5 @abstract-hyprland\n";
    assert_eq!(
        hyprland_socket_candidates(table, b"/run/user/1000"),
        Ok(vec![b"/run/user/1000/hypr/good/.socket.sock".to_vec()])
    );
}

fn socket_row(index: usize, path: &str) -> String {
    format!("{index:03}: 00000002 00000000 00010000 0001 01 {index} {path}\n")
}

#[test]
fn hyprland_socket_candidates_reject_more_than_the_entry_budget() {
    let mut table = String::from("Num RefCount Protocol Flags Type St Inode Path\n");
    for index in 0..HYPRLAND_MAX_RUNTIME_ENTRIES {
        table.push_str(&socket_row(index, &format!("/run/user/1000/hypr/sig{index}/{HYPRLAND_SOCKET_NAME}")));
    }
    let within = hyprland_socket_candidates(&table, b"/run/user/1000").expect("the budget is inclusive");
    assert_eq!(within.len(), HYPRLAND_MAX_RUNTIME_ENTRIES);
    table.push_str(&socket_row(99, "/run/user/1000/hypr/one-more/.socket.sock"));
    let error = hyprland_socket_candidates(&table, b"/run/user/1000").expect_err("over budget");
    assert_eq!(
        error.text(),
        "Hyprland kernel socket-table candidates exceeded the bounded entry budget"
    );
}

#[test]
fn hyprland_socket_candidates_treat_equivalent_paths_as_one_locator() {
    let table = "Num RefCount Protocol Flags Type St Inode Path\n\
         000: 00000002 00000000 00010000 0001 01 1 /run/user/1000/hypr/a_b-1.2/.socket.sock\n\
         001: 00000002 00000000 00010000 0001 01 2 /run/user/1000//hypr/a_b-1.2/./.socket.sock\n\
         002: 00000002 00000000 00010000 0001 01 3 /run/user/1000/hypr/../.socket.sock\n\
         003: 00000002 00000000 00010000 0001 01 4 /run/user/1000/hypr/bad sig/.socket.sock\n\
         004: 00000002 00000000 00010000 0001 01 5 /run/user/1000/hypr/x/.socket.sock.bak\n\
         short row\n";
    assert_eq!(
        hyprland_socket_candidates(table, b"/run/user/1000/"),
        Ok(vec![b"/run/user/1000/hypr/a_b-1.2/.socket.sock".to_vec()])
    );
    assert_eq!(hyprland_socket_candidates("", b"/run/user/1000"), Ok(vec![]));
    assert_eq!(hyprland_socket_candidates("header only\n", b"/run/user/1000"), Ok(vec![]));
}
