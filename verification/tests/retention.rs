use lib_setup::datetime::DateTime;
use lib_setup::errors::TransferError;
use lib_setup::retention::{create_log_dir, del_old_logs, get_log_folder, log_file_path, rotate_logs};

fn today(year: &str, month: &str) -> DateTime {
    DateTime {
        year: year.to_string(),
        month: month.to_string(),
        day: "15".to_string(),
        time: "12:00:00".to_string(),
    }
}

fn names(v: &[&str]) -> Vec<String> {
    v.iter().map(|s| s.to_string()).collect()
}

#[test]
fn placement_uses_fields_as_encoded() {
    assert_eq!(get_log_folder(), "Logs/");
    let dt = DateTime {
        year: "2025".to_string(),
        month: "7".to_string(),
        day: "5".to_string(),
        time: "07:04:58".to_string(),
    };
    assert_eq!(create_log_dir(dt), "Logs/2025/7/5");
}

#[test]
fn artifact_path_embeds_host_and_time() {
    let dt = DateTime {
        year: "2025".to_string(),
        month: "7".to_string(),
        day: "5".to_string(),
        time: "07:04:58".to_string(),
    };
    assert_eq!(
        log_file_path(&dt, "edge-3"),
        "Logs/2025/7/5/edge-3||07:04:58.log"
    );
}

#[test]
fn pruning_deletes_past_years_and_expired_months() {
    // Partitions 2023/, 2024/, 2025/{06,07,08}; today 2025-08, threshold 2.
    // Years before 2025 go; the month cutoff is 08 - 02 = 06, and month
    // names parsing strictly below it go, so 06, 07 and 08 all stay.
    let plan = del_old_logs(
        &today("2025", "08"),
        2,
        &names(&["2023", "2024", "2025"]),
        &names(&["06", "07", "08"]),
    )
    .unwrap();
    assert_eq!(plan.years, names(&["2023", "2024"]));
    assert_eq!(plan.month_cutoff, 6);
    assert_eq!(plan.months, Vec::<String>::new());
}

#[test]
fn months_strictly_below_the_cutoff_are_deleted() {
    let plan = del_old_logs(
        &today("2025", "08"),
        2,
        &names(&["2025"]),
        &names(&["03", "05", "06", "07", "08"]),
    )
    .unwrap();
    assert_eq!(plan.month_cutoff, 6);
    assert_eq!(plan.months, names(&["03", "05"]));
}

#[test]
fn zero_cutoff_skips_the_month_pass_entirely() {
    let plan = del_old_logs(
        &today("2025", "02"),
        2,
        &names(&["2024", "2025"]),
        &names(&["01", "02"]),
    )
    .unwrap();
    assert_eq!(plan.month_cutoff, 0);
    assert_eq!(plan.years, names(&["2024"]));
    assert_eq!(plan.months, Vec::<String>::new());
}

#[test]
fn non_numeric_names_are_left_untouched() {
    let plan = del_old_logs(
        &today("2025", "08"),
        2,
        &names(&["servers.json", "2020", "notes"]),
        &names(&["old", "01"]),
    )
    .unwrap();
    assert_eq!(plan.years, names(&["2020"]));
    assert_eq!(plan.months, names(&["01"]));
}

#[test]
fn non_numeric_today_is_invalid_input() {
    let r = del_old_logs(&today("twentytwentyfive", "08"), 2, &names(&[]), &names(&[]));
    assert_eq!(r.unwrap_err(), TransferError::InvalidInput);
}

#[test]
fn rotation_uses_the_fixed_two_month_threshold() {
    let plan = rotate_logs(
        &today("2025", "08"),
        &names(&["2024"]),
        &names(&["05", "06"]),
    )
    .unwrap();
    assert_eq!(plan.month_cutoff, 6);
    assert_eq!(plan.years, names(&["2024"]));
    assert_eq!(plan.months, names(&["05"]));
}

#[test]
fn names_above_the_integer_range_never_expire() {
    let plan = del_old_logs(
        &today("2025", "08"),
        2,
        &names(&["4294967295", "4294967296"]),
        &names(&[]),
    )
    .unwrap();
    // The first parses but is not below 2025; the second does not parse as
    // a 32-bit integer at all, so it is left alone.
    assert_eq!(plan.years, Vec::<String>::new());
}

#[test]
fn zero_threshold_expires_months_before_the_current_one() {
    let plan = del_old_logs(&today("2025", "08"), 0, &names(&[]), &names(&["07", "08"])).unwrap();
    assert_eq!(plan.month_cutoff, 8);
    assert_eq!(plan.months, names(&["07"]));
}
