use multivm_workspace::activation::{
    host_display, parse_host_port, pty_workload_cmd, session_config_for_connection,
    session_config_from_resolved,
};
use multivm_workspace::resources::{
    df_command, parse_cpu_percent_from_top, parse_disk_percent_from_df,
    parse_ram_percent_from_free, preferred_disk_path, shell_escape, snapshot_from_outputs,
};
use multivm_workspace::settings::{AppSettings, SettingsError, SettingsStore, Theme};
use multivm_workspace::workset::{AuthMethod, ConnectionConfig};

#[test]
fn cpu_classic_top() {
    let out = "top - 12:00:00 up 1 day\n\
               Tasks: 100 total\n\
               %Cpu(s):  5.3 us,  2.1 sy,  0.0 ni, 90.0 id,  2.6 wa\n";
    // 100% minus 90.0% idle, in hundredths.
    assert_eq!(parse_cpu_percent_from_top(out), Some(1_000));
}

#[test]
fn cpu_classic_top_unlabelled() {
    let out = "Cpu(s): 12.5 us, 3.0 sy, 84.5 id\n";
    assert_eq!(parse_cpu_percent_from_top(out), Some(1_550));
}

#[test]
fn cpu_busybox_top() {
    let out = "Mem: 1024K used\nCPU:  10% usr   5% sys   0% nic  80% idle   5% io\n";
    assert_eq!(parse_cpu_percent_from_top(out), Some(2_000));
}

#[test]
fn cpu_missing_or_garbled_is_absent() {
    assert_eq!(parse_cpu_percent_from_top(""), None);
    assert_eq!(parse_cpu_percent_from_top("no such line\n"), None);
    // A CPU line whose idle field does not parse yields nothing.
    assert_eq!(parse_cpu_percent_from_top("%Cpu(s): x id\n"), None);
}

#[test]
fn cpu_idle_above_hundred_clamps_to_zero() {
    let out = "%Cpu(s): 0.0 us, 120.0 id\n";
    assert_eq!(parse_cpu_percent_from_top(out), Some(0));
}

#[test]
fn ram_from_free() {
    let out = "              total        used        free\n\
               Mem:          32000        8000       24000\n\
               Swap:          2048           0        2048\n";
    // 8000 of 32000: one quarter, in hundredths of a percent.
    assert_eq!(parse_ram_percent_from_free(out), Some(2_500));
}

#[test]
fn ram_rejects_zero_total_and_short_rows() {
    assert_eq!(parse_ram_percent_from_free("Mem: 0 0 0\n"), None);
    assert_eq!(parse_ram_percent_from_free("Mem: 100\n"), None);
    assert_eq!(parse_ram_percent_from_free("Swap: 1 1 0\n"), None);
}

#[test]
fn disk_from_df() {
    let out = "Filesystem 1024-blocks Used Available Capacity Mounted on\n\
               /dev/sda1 1000000 420000 580000 42% /\n";
    assert_eq!(parse_disk_percent_from_df(out), Some(4_200));
}

#[test]
fn disk_skips_header_and_blank_lines() {
    let out = "Filesystem 1024-blocks Used Available Capacity Mounted on\n\
               \n\
               tmpfs 100 7 93 7% /tmp\n";
    assert_eq!(parse_disk_percent_from_df(out), Some(700));
    assert_eq!(parse_disk_percent_from_df("header only\n"), None);
    assert_eq!(parse_disk_percent_from_df(""), None);
}

#[test]
fn snapshot_assembles_independent_fields() {
    let snap = snapshot_from_outputs(
        Some("%Cpu(s): 50.0 us, 50.0 id\n"),
        None,
        Some("h\n/dev/x 10 1 9 10% /\n"),
        "/".to_string(),
        1_700_000_123,
    );
    assert_eq!(snap.cpu_centi_percent, Some(5_000));
    assert_eq!(snap.ram_centi_percent, None);
    assert_eq!(snap.disk_centi_percent, Some(1_000));
    assert_eq!(snap.ts_epoch, 1_700_000_123);
    assert_eq!(snap.disk_path, "/");
}

#[test]
fn shell_escaping_is_posix_single_quoting() {
    assert_eq!(shell_escape("abc"), "'abc'");
    assert_eq!(shell_escape(""), "''");
    assert_eq!(shell_escape("a'b"), "'a'\\''b'");
    assert_eq!(shell_escape("it's a'quote'"), "'it'\\''s a'\\''quote'\\'''");
}

#[test]
fn df_command_quotes_the_path() {
    assert_eq!(df_command("/srv/data"), "LANG=C df -P '/srv/data'");
    assert_eq!(df_command("/odd dir/it's"), "LANG=C df -P '/odd dir/it'\\''s'");
}

#[test]
fn disk_path_falls_back_to_root() {
    assert_eq!(preferred_disk_path("  "), "/");
    assert_eq!(preferred_disk_path(""), "/");
    assert_eq!(preferred_disk_path(" /work "), "/work");
}

#[test]
fn host_port_targets() {
    assert_eq!(parse_host_port("example.com:2222"), ("example.com".to_string(), 2222));
    assert_eq!(parse_host_port("example.com"), ("example.com".to_string(), 22));
    assert_eq!(parse_host_port("h:99999"), ("h".to_string(), 22));
    assert_eq!(parse_host_port("h:+80"), ("h".to_string(), 80));
    assert_eq!(parse_host_port("h:"), ("h".to_string(), 22));
    assert_eq!(parse_host_port("a:b:443"), ("a:b".to_string(), 443));
}

#[test]
fn workload_command_by_intensity() {
    assert_eq!(pty_workload_cmd("low"), "for i in $(seq 1 5); do echo pty-heartbeat-$i; done");
    assert_eq!(pty_workload_cmd("high"), "yes 'pty-flood-line' | head -n 200");
    assert_eq!(pty_workload_cmd("medium"), "for i in $(seq 1 20); do echo pty-line-$i; done");
    assert_eq!(pty_workload_cmd("anything"), "for i in $(seq 1 20); do echo pty-line-$i; done");
}

#[test]
fn endpoint_label() {
    assert_eq!(host_display("u", "h1", 22), "u@h1:22");
    assert_eq!(host_display("deploy", "10.0.0.7", 2200), "deploy@10.0.0.7:2200");
}

fn conn(auth: AuthMethod) -> ConnectionConfig {
    ConnectionConfig {
        host: "h1".into(),
        port: 22,
        user: "u".into(),
        auth_method: auth,
        key_path: Some("/k".into()),
        project_path: "/work".into(),
        ai_cli_command: None,
        keepalive_interval_secs: Some(30),
        reconnect_max_retries: Some(5),
    }
}

#[test]
fn session_config_direct_auth() {
    let c = conn(AuthMethod::Key);
    let cfg = session_config_for_connection(&c, "id-1".into(), Some("secret".into()));
    assert_eq!(cfg.auth_method, "key");
    assert_eq!(cfg.key_path.as_deref(), Some("/k"));
    // The password is dropped under key authentication.
    assert_eq!(cfg.password, None);
    assert_eq!(cfg.keepalive_interval_secs, Some(30));
    assert_eq!(cfg.reconnect_max_retries, Some(5));

    let c = conn(AuthMethod::Password);
    let cfg = session_config_for_connection(&c, "id-2".into(), Some("secret".into()));
    assert_eq!(cfg.auth_method, "password");
    assert_eq!(cfg.password.as_deref(), Some("secret"));
}

#[test]
fn session_config_resolved_alias() {
    let c = conn(AuthMethod::SshConfig);
    let cfg = session_config_from_resolved(
        &c,
        "id-3".into(),
        "real-host.example".into(),
        2201,
        "resolved-user".into(),
        "/home/u/.ssh/id_ed25519".into(),
    );
    assert_eq!(cfg.host, "real-host.example");
    assert_eq!(cfg.port, 2201);
    assert_eq!(cfg.user, "resolved-user");
    assert_eq!(cfg.auth_method, "key");
    assert_eq!(cfg.key_path.as_deref(), Some("/home/u/.ssh/id_ed25519"));
    assert_eq!(cfg.password, None);
    assert_eq!(cfg.project_path, "/work");
}

#[test]
fn theme_parsing() {
    assert!(matches!(SettingsStore::parse_theme("dark"), Ok(Theme::Dark)));
    assert!(matches!(SettingsStore::parse_theme(" Dark "), Ok(Theme::Dark)));
    assert!(matches!(SettingsStore::parse_theme("LIGHT"), Ok(Theme::Light)));
    assert!(matches!(
        SettingsStore::parse_theme("blue"),
        Err(SettingsError::Validation(_))
    ));
    assert!(matches!(
        SettingsStore::parse_theme(""),
        Err(SettingsError::Validation(_))
    ));
}

#[test]
fn settings_store_defaults_and_updates() {
    let mut store = SettingsStore::with_dir("/tmp/settings-tests".to_string());
    assert!(matches!(store.get(), AppSettings { theme: Theme::Dark }));

    let updated = store.set_theme_result(Theme::Light).expect("set succeeds");
    assert!(matches!(updated.theme, Theme::Light));
    assert!(matches!(store.get().theme, Theme::Light));
}

#[test]
fn default_settings_are_dark() {
    let s = AppSettings::default();
    assert!(matches!(s.theme, Theme::Dark));
}
