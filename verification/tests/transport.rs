use lib_setup::client::{artifact_name_from_path, file_header};
use lib_setup::datetime::DateTime;
use lib_setup::errors::TransferError;
use lib_setup::file_info::FileInfo;
use lib_setup::log_utils::{
    backup_verification, get_hostname, lxc_command, network_connectivity, network_interface_dns,
    snapshot_management, log_file_health,
};

fn sample_datetime() -> DateTime {
    DateTime {
        year: "2025".to_string(),
        month: "7".to_string(),
        day: "25".to_string(),
        time: "07:04:58".to_string(),
    }
}

#[test]
fn artifact_name_is_the_last_path_segment() {
    assert_eq!(artifact_name_from_path("/home/op/files/report.txt"), "report.txt");
    assert_eq!(artifact_name_from_path("report.txt"), "report.txt");
    assert_eq!(artifact_name_from_path("dir/"), "");
}

#[test]
fn file_header_decodes_back_to_the_derived_name() {
    let bytes = file_header(7, "/tmp/out/snap.log", sample_datetime()).unwrap();
    let (fi, used) = FileInfo::decode(&bytes).unwrap();
    assert_eq!(used, bytes.len());
    assert_eq!(fi.f_len, 7);
    assert_eq!(fi.filename, "snap.log");
    assert_eq!(fi.datetime.year, "2025");
}

#[test]
fn file_header_rejects_an_oversized_name() {
    let long = "a".repeat(70_000);
    let r = file_header(1, &long, sample_datetime());
    assert_eq!(r.unwrap_err(), TransferError::InvalidInput);
}

#[test]
fn hostname_output_loses_its_trailing_newline() {
    assert_eq!(get_hostname("edge-3\n"), "edge-3");
    assert_eq!(get_hostname(""), "");
}

#[test]
fn clock_now_yields_space_free_fields() {
    let dt = DateTime::now().unwrap();
    assert!(!dt.year.contains(' '));
    assert!(!dt.month.contains(' '));
    assert!(!dt.day.contains(' '));
    assert!(!dt.time.contains(' '));
    assert_eq!(dt.year.len(), 4);
}

#[test]
fn probe_commands_have_their_documented_argv() {
    assert_eq!(
        network_connectivity("web"),
        vec!["lxc", "exec", "web", "--", "ping", "-c", "3", "8.8.8.8"]
    );
    assert_eq!(
        log_file_health("web"),
        vec!["lxc", "exec", "web", "--", "tail", "-n", "100", "/var/log/syslog"]
    );
    assert_eq!(
        network_interface_dns("web"),
        vec![
            vec!["lxc", "exec", "web", "--", "ip", "a"],
            vec!["lxc", "exec", "web", "--", "cat", "/etc/resolv.conf"]
        ]
    );
    assert_eq!(backup_verification("web"), vec!["lxc", "exec", "web", "backup.tar.gz"]);
    assert_eq!(
        snapshot_management("web"),
        vec![vec!["lxc", "snapshot", "web"], vec!["lxc", "info", "web"]]
    );
    let args = vec!["list".to_string()];
    assert_eq!(lxc_command(&args), vec!["lxc", "list"]);
}

#[test]
fn transfer_errors_describe_themselves() {
    assert_eq!(TransferError::ConnectError.describe(), "connection failed");
    assert_eq!(TransferError::IoError.describe(), "read or write failed");
    assert_eq!(TransferError::ProtocolError.describe(), "malformed protocol data");
    assert_eq!(TransferError::InvalidInput.describe(), "invalid input");
}
