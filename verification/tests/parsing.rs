//! Tests of the memory-accounting parser and the percentage computation.

use killrs::mem::{
    get_memory_value, memory_line_value_checked, percentage_output_value, private_memory_of_text,
    read_private_memory, SampleError,
};
use killrs::resource::{max_core_temp, memory_percentage};

#[test]
fn memory_value_of_one_line() {
    assert_eq!(get_memory_value("Private_Clean:        10 kB"), 10);
    assert_eq!(get_memory_value("Private_Dirty: 2048 kB"), 2048);
    // a line without a colon counts as zero
    assert_eq!(get_memory_value("THPeligible"), 0);
    assert_eq!(get_memory_value(""), 0);
}

#[test]
fn memory_value_checked_rejects_bad_fields() {
    // value field that is not a number
    assert_eq!(memory_line_value_checked("Private_Clean: x kB"), None);
    // no field after the colon at all
    assert_eq!(memory_line_value_checked("Private_Clean:"), None);
    // no unit after the number, so no separator space
    assert_eq!(memory_line_value_checked("Private_Clean: 10"), None);
    // too large for an i32
    assert_eq!(memory_line_value_checked("Private_Clean: 999999999999 kB"), None);
    // well-formed ones parse
    assert_eq!(memory_line_value_checked("Private_Clean: 10 kB"), Some(10));
    assert_eq!(memory_line_value_checked("Private_Neg: -7 kB"), Some(-7));
    assert_eq!(memory_line_value_checked("no colon here"), Some(0));
}

#[test]
fn private_memory_sums_private_lines_only() {
    let text = "Rss:             4096 kB\nPrivate_Clean:      4 kB\nPrivate_Dirty:      8 kB\nPrivate_Hugetlb:    0 kB\nSwap:               0 kB\n";
    assert_eq!(private_memory_of_text(text), Ok(12));
}

#[test]
fn private_memory_surfaces_malformed_lines() {
    let text = "Private_Clean:      4 kB\nPrivate_Dirty:      what kB\n";
    assert_eq!(private_memory_of_text(text), Err(SampleError::Malformed));
}

#[test]
fn private_memory_surfaces_overflow() {
    let text = "Private_Clean: 2000000000 kB\nPrivate_Dirty: 2000000000 kB\n";
    assert_eq!(private_memory_of_text(text), Err(SampleError::Overflow));
}

#[test]
fn private_memory_of_unreadable_pid() {
    // no process table entry ever has this identifier
    assert_eq!(read_private_memory(-1), Err(SampleError::Unreadable));
}

#[test]
fn pipeline_output_parses_without_line_breaks() {
    assert_eq!(percentage_output_value("47\n"), Some(47));
    assert_eq!(percentage_output_value("100"), Some(100));
    // every line break goes, wherever it stands
    assert_eq!(percentage_output_value("4\n7\n"), Some(47));
    assert_eq!(percentage_output_value("-3\n"), Some(-3));
    // not a number at all
    assert_eq!(percentage_output_value(""), None);
    assert_eq!(percentage_output_value("\n"), None);
    assert_eq!(percentage_output_value("4a\n"), None);
    assert_eq!(percentage_output_value("12345678901\n"), None);
}

#[test]
fn percentage_is_clamped_and_rounded_down() {
    assert_eq!(memory_percentage(0, 100), 0);
    assert_eq!(memory_percentage(50, 100), 50);
    assert_eq!(memory_percentage(100, 100), 100);
    assert_eq!(memory_percentage(1, 3), 33);
    // degenerate totals read as zero, oversized ratios clamp
    assert_eq!(memory_percentage(1, 0), 0);
    assert_eq!(memory_percentage(150, 100), 100);
}

#[test]
fn max_core_temperature_filters_by_label() {
    let sensors = vec![
        (String::from("acpitz temp1"), 70),
        (String::from("coretemp core 0"), 55),
        (String::from("coretemp core 1"), 61),
    ];
    assert_eq!(max_core_temp(&sensors), 61);

    let no_core = vec![(String::from("acpitz temp1"), 70)];
    assert_eq!(max_core_temp(&no_core), i32::MIN);

    let none: Vec<(String, i32)> = vec![];
    assert_eq!(max_core_temp(&none), i32::MIN);
}
