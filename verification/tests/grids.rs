use xenos::collections::bitroomgrid::BitGrid;
use xenos::collections::flaggrid::{BitRoomGrid5050 as FlagRoomGrid5050, FlagGrid, FlagGrid1717};
use xenos::collections::{BitRoomGrid, BitRoomGrid1717, BitRoomGrid5050};
use std::mem::size_of;

#[test]
fn bitroomgrid_test_default_bitmap() {
    let mat = BitRoomGrid::default();
    for i in 0..50 {
        for j in 0..50 {
            assert!(!mat.get(i, j), "{} {}", i, j);
        }
    }
}

#[test]
fn bitroomgrid_test_set_is_consistent() {
    let mut mat = BitRoomGrid::default();
    for i in 0..50 {
        for j in 0..50 {
            assert!(!mat.get(i, j), "{} {}", i, j);
        }
    }

    mat.set(33, 42, true);

    for i in 0..50 {
        for j in 0..50 {
            if i != 33 || j != 42 {
                assert!(!mat.get(i, j), "{} {}", i, j);
            }
        }
    }

    assert!(mat.get(33, 42));
}

#[test]
// Test if the indexing is fine and does not set a bit twice
fn bitroomgrid_test_setting_is_not_overlapping() {
    let mut mat = BitRoomGrid::default();

    for i in 0..50 {
        for j in 0..50 {
            assert!(!mat.get(i, j));
            mat.set(i, j, true);
        }
    }

    for i in 0..50 {
        for j in 0..50 {
            assert!(mat.get(i, j));
            mat.set(i, j, false);
            assert!(!mat.get(i, j));
        }
    }
}

#[test]
fn bitroomgrid_test_serialize_deserialize() {
    let mut mat = BitRoomGrid::default();

    for i in (0..50).step_by(2) {
        for j in (0..50).step_by(2) {
            assert!(!mat.get(i, j));
            mat.set(i, j, true);
        }
    }

    let compressed = mat.compressed().expect("Failed to serialize");

    let mat = BitRoomGrid::decompress(compressed.as_str()).expect("Failed to parse");

    for i in 0..50 {
        for j in 0..50 {
            let val = i % 2 == 0 && j % 2 == 0;
            assert!(mat.get(i, j) == val);
        }
    }
}

#[test]
fn trait_impl_test_default_bitmap() {
    let mat = BitRoomGrid5050::default();
    for i in 0..50 {
        for j in 0..50 {
            assert!(!mat.get(i, j), "{} {}", i, j);
        }
    }

    let mat = FlagRoomGrid5050::default();
    for i in 0..50 {
        for j in 0..50 {
            assert!(mat.get(i, j) == 0, "{} {}", i, j);
        }
    }
}

#[test]
fn trait_impl_test_set_is_consistent() {
    let mut mat = BitRoomGrid5050::default();
    for i in 0..50 {
        for j in 0..50 {
            assert!(!mat.get(i, j), "{} {}", i, j);
        }
    }

    mat.set(33, 42, true);

    for i in 0..50 {
        for j in 0..50 {
            if i != 33 || j != 42 {
                assert!(!mat.get(i, j), "{} {}", i, j);
            }
        }
    }

    assert!(mat.get(33, 42));

    let mut mat = FlagRoomGrid5050::default();
    for i in 0..50 {
        for j in 0..50 {
            assert!(mat.get(i, j) == 0, "{} {}", i, j);
        }
    }

    mat.set(33, 42, 1);

    for i in 0..50 {
        for j in 0..50 {
            if i != 33 || j != 42 {
                assert!(mat.get(i, j) == 0, "{} {}", i, j);
            }
        }
    }

    assert!(mat.get(33, 42) == 1);
}

#[test]
// Test if the indexing is fine and does not set a bit twice
fn trait_impl_test_setting_is_not_overlapping() {
    let mut mat = BitRoomGrid5050::default();

    for i in 0..50 {
        for j in 0..50 {
            assert!(!mat.get(i, j));
            mat.set(i, j, true);
        }
    }

    for i in 0..50 {
        for j in 0..50 {
            assert!(mat.get(i, j));
            mat.set(i, j, false);
            assert!(!mat.get(i, j));
        }
    }

    let mut mat = FlagRoomGrid5050::default();

    for i in 0..50 {
        for j in 0..50 {
            assert!(mat.get(i, j) == 0);
            mat.set(i, j, 1);
        }
    }

    for i in 0..50 {
        for j in 0..50 {
            assert!(mat.get(i, j) == 1);
            mat.set(i, j, 0);
            assert!(mat.get(i, j) == 0);
        }
    }
}

#[test]
fn trait_impl_test_serialize_deserialize() {
    let mut mat = BitRoomGrid5050::default();

    for i in (0..50).step_by(2) {
        for j in (0..50).step_by(2) {
            assert!(!mat.get(i, j));
            mat.set(i, j, true);
        }
    }

    let compressed = mat.compressed().expect("Failed to serialize");

    let mat = BitRoomGrid5050::decompress(compressed.as_str()).expect("Failed to parse");

    for i in 0..50 {
        for j in 0..50 {
            let val = i % 2 == 0 && j % 2 == 0;
            assert!(mat.get(i, j) == val);
        }
    }

    let mut mat = FlagRoomGrid5050::default();

    for i in (0..50).step_by(2) {
        for j in (0..50).step_by(2) {
            assert!(mat.get(i, j) == 0);
            mat.set(i, j, 1);
        }
    }

    let compressed = mat.compressed().expect("Failed to serialize");

    let mat = FlagRoomGrid5050::decompress(compressed.as_str()).expect("Failed to parse");

    for i in 0..50 {
        for j in 0..50 {
            let val = if i % 2 == 0 && j % 2 == 0 { 1 } else { 0 };
            assert!(mat.get(i, j) == val);
        }
    }
}

#[test]
fn test_size_of_grid() {
    // Application code can't use doc tests
    assert_eq!(
        size_of::<BitRoomGrid5050>(),
        320,
        "You forgot to update the doc comment of the struct after changing its size"
    );
}

#[test]
fn compressed_text_counts_runs() {
    let mut mat = FlagGrid1717::default();
    mat.set(0, 0, 1);
    mat.set(0, 1, 1);
    mat.set(0, 2, 1);
    let text = mat.compressed().unwrap();
    assert_eq!(text, "1_3-0_286");
}

#[test]
fn bit_grid_compressed_text() {
    let mut mat = BitRoomGrid1717::default();
    mat.set(0, 0, true);
    mat.set(0, 1, true);
    // bits 0 and 1 of byte 0
    assert_eq!(mat.compressed().unwrap(), "3_1-0_63");
}

#[test]
fn decompress_reports_missing_count() {
    assert_eq!(BitRoomGrid::decompress("5").err(), Some("Unexpected end of input"));
    assert_eq!(
        BitRoomGrid::decompress("x_1").err(),
        Some("Failed to deserialize: invalid input")
    );
    assert_eq!(
        FlagGrid1717::decompress("1_y").err(),
        Some("Failed to deserialize: invalid input")
    );
    assert_eq!(
        BitRoomGrid::decompress("").err(),
        Some("Failed to deserialize: invalid input")
    );
}

#[test]
fn decompress_pads_with_zeros_and_truncates_bytes() {
    // 257 is written as a byte of value 1; a leading '+' is accepted
    let mat = FlagGrid1717::decompress("257_+2-7_1").unwrap();
    assert_eq!(mat.get(0, 0), 1);
    assert_eq!(mat.get(0, 1), 1);
    assert_eq!(mat.get(0, 2), 7);
    assert_eq!(mat.get(0, 3), 0);
    assert_eq!(mat.get(16, 16), 0);
}

#[test]
fn decompress_ignores_extra_parts() {
    let mat = FlagGrid1717::decompress("4_2_9").unwrap();
    assert_eq!(mat.get(0, 1), 4);
    assert_eq!(mat.get(0, 2), 0);
}
