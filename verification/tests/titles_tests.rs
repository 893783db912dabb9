use std::fmt::Write;

use arrayvec::ArrayString;
use missioncenter::titles::{column_title, memory_used, ColumnValue};

fn formatted(name: &str, value: &ColumnValue) -> String {
    // What formatting "{}\n{}%" (and the like) into the buffer does: each
    // literal piece and each argument is one `write_str`, and formatting
    // stops at the first one that fails.
    let digits;
    let pieces: Vec<&str> = match value {
        ColumnValue::Percent(n) => {
            digits = n.to_string();
            vec![name, "\n", digits.as_str(), "%"]
        }
        ColumnValue::ZeroPercent => vec![name, "\n0%"],
        ColumnValue::Zero => vec![name, "\n0"],
        ColumnValue::Text(t) => vec![name, "\n", t.as_str()],
    };
    let mut buffer = ArrayString::<128>::new();
    for piece in pieces {
        if buffer.write_str(piece).is_err() {
            break;
        }
    }
    buffer.as_str().to_string()
}

#[test]
fn column_titles() {
    assert_eq!(column_title("CPU", &ColumnValue::Percent(42)), "CPU\n42%");
    assert_eq!(column_title("Drive", &ColumnValue::ZeroPercent), "Drive\n0%");
    assert_eq!(column_title("Network", &ColumnValue::Zero), "Network\n0");
    assert_eq!(column_title("Network", &ColumnValue::Text("1.2 MiB/s".to_string())), "Network\n1.2 MiB/s");
}

#[test]
fn column_titles_stop_at_the_first_piece_that_does_not_fit() {
    let long = "x".repeat(126);
    assert_eq!(column_title(&long, &ColumnValue::Percent(42)), format!("{}\n", long));
    let longer = "é".repeat(64);
    assert_eq!(column_title(&longer, &ColumnValue::Percent(1)), longer);
    let too_long = "y".repeat(129);
    assert_eq!(column_title(&too_long, &ColumnValue::ZeroPercent), "");
}

#[test]
fn column_titles_match_formatting_into_the_buffer() {
    let names = ["CPU", "Mémoire", "", &"z".repeat(125), &"ü".repeat(63), &"q".repeat(128)];
    let values = [
        ColumnValue::Percent(0),
        ColumnValue::Percent(100),
        ColumnValue::Percent(u32::MAX),
        ColumnValue::ZeroPercent,
        ColumnValue::Zero,
        ColumnValue::Text("0 B/s".to_string()),
    ];
    for name in names.iter() {
        for value in values.iter() {
            assert_eq!(column_title(name, value), formatted(name, value));
        }
    }
}

#[test]
fn memory_in_use() {
    assert_eq!(memory_used(16_000, 4_000, 1_000), (12_000, 16_000));
    // More available than in total: the free amount stands in.
    assert_eq!(memory_used(16_000, 20_000, 3_000), (13_000, 16_000));
    // Unknown total: taken as 1, never below zero.
    assert_eq!(memory_used(0, 0, 0), (1, 1));
    assert_eq!(memory_used(0, 5, 7), (0, 1));
    assert_eq!(memory_used(100, 100, 0), (0, 100));
}
