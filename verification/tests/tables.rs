use lib_setup::log_utils::{
    get_running_containers, integrity_disk_space, lxc_info, lxc_list, parse_box_data_table,
    parse_container_counts, parse_ps_aux, parse_tabular_data_table, Entry,
};

fn cell<'a>(row: &'a [Entry], key: &str) -> &'a str {
    &row.iter().find(|e| e.key == key).unwrap().value
}

#[test]
fn tabular_table_pairs_headers_with_fields() {
    let output = "Filesystem Size Used\n/dev/root 40G 12G\ntmpfs 2G 0G\n";
    let rows = parse_tabular_data_table(output);
    assert_eq!(rows.len(), 2);
    assert_eq!(cell(&rows[0], "Filesystem"), "/dev/root");
    assert_eq!(cell(&rows[0], "Used"), "12G");
    assert_eq!(cell(&rows[1], "Size"), "2G");
    assert_eq!(integrity_disk_space(output).len(), 2);
}

#[test]
fn tabular_row_shorter_than_headers_keeps_what_it_has() {
    let rows = parse_tabular_data_table("A B C\nx y\n");
    assert_eq!(rows[0].len(), 2);
    assert_eq!(cell(&rows[0], "B"), "y");
}

#[test]
fn box_table_reads_headers_from_the_first_bar_line() {
    let output = "+------+-------+\n| NAME | STATE |\n+------+-------+\n| web  | READY |\n";
    let rows = parse_box_data_table(output);
    assert_eq!(rows.len(), 1);
    assert_eq!(cell(&rows[0], "NAME"), "web");
    assert_eq!(cell(&rows[0], "STATE"), "READY");
}

#[test]
fn lxc_list_reads_fixed_columns() {
    let output = "header\n+------+---------+------+------+-----------+-----------+\n\
| web  | RUNNING | ip4  | ip6  | CONTAINER | 0         |\n\
| db   | STOPPED | ip4  | ip6  | CONTAINER | 2         |\n\
+------+---------+------+------+-----------+-----------+\n";
    let rows = lxc_list(output);
    // The trailing border line is also a `|`-free line? It starts with `+`,
    // so only the two body lines become rows.
    assert_eq!(rows.len(), 2);
    assert_eq!(cell(&rows[0], "NAME"), "web");
    assert_eq!(cell(&rows[0], "STATE"), "RUNNING");
    assert_eq!(cell(&rows[1], "NAME"), "db");
    assert_eq!(cell(&rows[1], "SNAPSHOTS"), "2");
}

#[test]
fn running_containers_counts_states() {
    let output = "x\n+---+\n| a | RUNNING | i4 | i6 | C | 0 |\n| b | STOPPED | i4 | i6 | C | 0 |\n| c | RUNNING | i4 | i6 | C | 0 |\n";
    let rows = lxc_list(output);
    assert_eq!(get_running_containers(&rows), (2, 3));
}

#[test]
fn rows_without_a_state_cell_do_not_count() {
    let rows: Vec<Vec<Entry>> = vec![vec![Entry {
        key: "NAME".to_string(),
        value: "web".to_string(),
    }]];
    assert_eq!(get_running_containers(&rows), (0, 0));
}

#[test]
fn info_takes_the_first_seven_lines_split_at_colons() {
    let output = "Name: web\nStatus: Running\nType: container\nArchitecture: x86_64\nPID: 4242\nCreated: 2025/07/01\nLast Used: 2025/07/25\nIgnored: beyond seventh\n";
    let entries = lxc_info(output);
    assert_eq!(entries.len(), 7);
    assert_eq!(entries[0].key, "Name");
    assert_eq!(entries[0].value, "web");
    assert_eq!(entries[4].key, "PID");
    assert_eq!(entries[4].value, "4242");
    assert!(entries.iter().all(|e| e.key != "Ignored"));
}

#[test]
fn ps_aux_joins_the_command_tail() {
    let output = "USER PID %CPU %MEM VSZ RSS TTY STAT START TIME COMMAND\n\
root 1 0.0 0.1 100 200 ? Ss 07:00 0:01 /sbin/init splash quiet\n\
short line\n";
    let rows = parse_ps_aux(output);
    assert_eq!(rows.len(), 1);
    assert_eq!(cell(&rows[0], "USER"), "root");
    assert_eq!(cell(&rows[0], "PID"), "1");
    assert_eq!(cell(&rows[0], "COMMAND"), "/sbin/init splash quiet");
}

#[test]
fn ps_aux_without_header_line_parses_every_long_line() {
    let output = "root 1 0.0 0.1 100 200 ? Ss 07:00 0:01 /bin/sh\n";
    let rows = parse_ps_aux(output);
    assert_eq!(rows.len(), 1);
    assert_eq!(cell(&rows[0], "COMMAND"), "/bin/sh");
}

#[test]
fn container_counts_come_from_the_marked_line() {
    let content = "noise\nINFO RUNNING CONTAINERS: (2, 5)\nlater RUNNING CONTAINERS: (9, 9)\n";
    assert_eq!(parse_container_counts(content), (2, 5));
}

#[test]
fn malformed_or_missing_counts_are_zero() {
    assert_eq!(parse_container_counts("nothing here\n"), (0, 0));
    assert_eq!(parse_container_counts("RUNNING CONTAINERS: no parens\n"), (0, 0));
    assert_eq!(parse_container_counts("RUNNING CONTAINERS: (1; 2)\n"), (0, 0));
    assert_eq!(parse_container_counts("RUNNING CONTAINERS: (1, 2, 3)\n"), (0, 0));
}

#[test]
fn counts_are_trimmed_before_parsing() {
    assert_eq!(parse_container_counts("RUNNING CONTAINERS: ( 3 , 7 )\n"), (3, 7));
}
