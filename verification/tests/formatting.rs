use rdf::cli::{mode, Mode};
use rdf::percent::Percent;
use rdf::stats::{score, FS_DEFAULT, FS_NET};
use rdf::text::{
    byte_count, chars_of, comes_before, decimal_text, has_char, has_prefix, pad_left, pad_right,
    same_text,
};
use rdf::util::{bar_colour, iec, is_mapper_path, is_virtual, shorten_lv, unit_name};
use rdf::paint::Tint;

#[test]
fn iec_of_zero() {
    assert_eq!(iec(0), "0");
}

#[test]
fn iec_below_first_unit() {
    assert_eq!(iec(1), "1");
    assert_eq!(iec(999), "999");
    assert_eq!(iec(1023), "1023");
}

#[test]
fn iec_of_exact_units() {
    assert_eq!(iec(1024), "1k");
    assert_eq!(iec(1024 * 1024), "1M");
    assert_eq!(iec(1 << 30), "1G");
    assert_eq!(iec(1 << 40), "1T");
    assert_eq!(iec(1 << 50), "1P");
    assert_eq!(iec(1 << 60), "1E");
}

#[test]
fn iec_rounds_to_nearest() {
    assert_eq!(iec(1500), "1k");
    assert_eq!(iec(1536), "2k");
    assert_eq!(iec(1600), "2k");
    assert_eq!(iec(107374182400), "100G");
}

#[test]
fn iec_ties_go_to_even() {
    assert_eq!(iec(2560), "2k");
    assert_eq!(iec(3584), "4k");
    assert_eq!(iec(5 * 512 * 1024), "2M");
}

#[test]
fn iec_just_below_a_unit_stays_in_the_smaller_one() {
    assert_eq!(iec(1024 * 1024 - 1), "1024k");
    assert_eq!(iec(1024 * 1024 - 600), "1023k");
}

#[test]
fn iec_of_largest_count() {
    assert_eq!(iec(u64::MAX), "16E");
}

#[test]
fn iec_agrees_with_floating_point_on_small_counts() {
    let units = ["", "k", "M", "G", "T", "P", "E", "Z", "Y"];
    let mut counts: Vec<u64> = (0..=5000).collect();
    counts.push(1_500_000);
    counts.push(123_456_789);
    counts.push(5_000_000_000);
    counts.push(7_777_777_777_777);
    for n in counts {
        let i = (n as f64).log(1024_f64).floor() as u32;
        let p = 1024_u64.pow(i);
        let s = (n as f64) / (p as f64);
        assert_eq!(iec(n), format!("{:.0}{}", s, units[i as usize]), "count {}", n);
    }
}

#[test]
fn unit_names_are_the_binary_prefixes() {
    let names: Vec<&str> = (0..9).map(unit_name).collect();
    assert_eq!(names, vec!["", "k", "M", "G", "T", "P", "E", "Z", "Y"]);
}

#[test]
fn virtual_names() {
    assert!(is_virtual("tmpfs"));
    assert!(is_virtual("dev"));
    assert!(is_virtual("devtmpfs"));
    assert!(is_virtual("efivarfs"));
    assert!(is_virtual("fuse-overlayfs"));
    assert!(is_virtual("portal"));
    assert!(is_virtual("run"));
    assert!(is_virtual("shm"));
}

#[test]
fn virtual_prefixes() {
    assert!(is_virtual("systemd-1"));
    assert!(is_virtual("systemd-"));
    assert!(is_virtual("/dev/loop0"));
    assert!(is_virtual("/dev/loop"));
}

#[test]
fn real_sources_are_not_virtual() {
    assert!(!is_virtual("/dev/sda1"));
    assert!(!is_virtual("nfsserver:/export"));
    assert!(!is_virtual("tmpfs2"));
    assert!(!is_virtual("systemd"));
    assert!(!is_virtual("/dev/loo"));
    assert!(!is_virtual(""));
    assert!(!is_virtual("Tmpfs"));
}

#[test]
fn mapper_paths_take_the_resolved_name() {
    assert!(is_mapper_path("/dev/mapper/vg-root"));
    assert_eq!(shorten_lv("/dev/mapper/vg-root", Some("/dev/dm-0".to_string())), "/dev/dm-0");
}

#[test]
fn unresolved_mapper_paths_stay() {
    assert_eq!(shorten_lv("/dev/mapper/vg-root", None), "/dev/mapper/vg-root");
}

#[test]
fn other_paths_pass_through() {
    assert!(!is_mapper_path("/dev/sda1"));
    assert!(!is_mapper_path("/dev/mapper"));
    assert_eq!(shorten_lv("/dev/sda1", Some("/elsewhere".to_string())), "/dev/sda1");
    assert_eq!(shorten_lv("tmpfs", None), "tmpfs");
}

#[test]
fn score_of_network_sources() {
    assert_eq!(score("nfsserver:/export"), 1000);
    assert_eq!(score("/dev/mapper/a:b"), FS_NET);
    assert_eq!(score(":"), FS_NET);
}

#[test]
fn score_of_devices_is_their_length() {
    assert_eq!(score("/dev/sda1"), 9);
    assert_eq!(score("/dev/"), 5);
    assert_eq!(score("/dev/nvme0n1p2"), 14);
    assert_eq!(score("/dev/d\u{e9}"), 8);
}

#[test]
fn score_of_everything_else() {
    assert_eq!(score("tmpfs"), 500);
    assert_eq!(score("/dev"), FS_DEFAULT);
    assert_eq!(score(""), FS_DEFAULT);
}

#[test]
fn percent_needs_used_within_size() {
    assert!(Percent::new(3, 4).is_some());
    assert!(Percent::new(4, 4).is_some());
    assert!(Percent::new(0, 0).is_some());
    assert!(Percent::new(5, 4).is_none());
    assert!(Percent::new(1, 0).is_none());
}

#[test]
fn percent_of_nothing_is_undefined() {
    assert!(Percent::new(0, 0).unwrap().is_nan());
    assert!(!Percent::new(0, 1).unwrap().is_nan());
}

#[test]
fn undefined_percent_is_a_dash() {
    assert_eq!(Percent::new(0, 0).unwrap().to_text(), "    -");
}

#[test]
fn percent_has_one_decimal_place() {
    assert_eq!(Percent::new(3, 4).unwrap().to_text(), " 75.0");
    assert_eq!(Percent::new(1, 1).unwrap().to_text(), "100.0");
    assert_eq!(Percent::new(0, 5).unwrap().to_text(), "  0.0");
    assert_eq!(Percent::new(1, 3).unwrap().to_text(), " 33.3");
    assert_eq!(Percent::new(2, 3).unwrap().to_text(), " 66.7");
    assert_eq!(Percent::new(1, 8).unwrap().to_text(), " 12.5");
    assert_eq!(Percent::new(u64::MAX, u64::MAX).unwrap().to_text(), "100.0");
    assert_eq!(Percent::new(u64::MAX - 1, u64::MAX).unwrap().to_text(), "100.0");
}

#[test]
fn percent_ties_go_to_even() {
    assert_eq!(Percent::new(1, 16).unwrap().to_text(), "  6.2");
    assert_eq!(Percent::new(3, 16).unwrap().to_text(), " 18.8");
}

#[test]
fn percent_agrees_with_floating_point_on_binary_fractions() {
    for used in 0..=1024_u64 {
        let percent = 100.0 * used as f64 / 1024.0;
        assert_eq!(
            Percent::new(used, 1024).unwrap().to_text(),
            format!("{:>5.1}", percent),
            "{} of 1024",
            used
        );
    }
}

#[test]
fn tens_round_half_up() {
    assert_eq!(Percent::new(0, 0).unwrap().rounded_tens(), 0);
    assert_eq!(Percent::new(0, 1).unwrap().rounded_tens(), 0);
    assert_eq!(Percent::new(1, 1).unwrap().rounded_tens(), 10);
    assert_eq!(Percent::new(44, 100).unwrap().rounded_tens(), 4);
    assert_eq!(Percent::new(45, 100).unwrap().rounded_tens(), 5);
    assert_eq!(Percent::new(95, 100).unwrap().rounded_tens(), 10);
    assert_eq!(Percent::new(49, 1000).unwrap().rounded_tens(), 0);
    assert_eq!(Percent::new(u64::MAX, u64::MAX).unwrap().rounded_tens(), 10);
}

#[test]
fn tens_agree_with_floating_point_on_binary_fractions() {
    for used in 0..=1024_u64 {
        let percent = 100.0 * used as f64 / 1024.0;
        let steps = (percent / 10.0).round() as usize;
        assert_eq!(Percent::new(used, 1024).unwrap().rounded_tens(), steps, "{} of 1024", used);
    }
}

#[test]
fn thresholds_are_strict() {
    assert!(Percent::new(91, 100).unwrap().above(90));
    assert!(!Percent::new(90, 100).unwrap().above(90));
    assert!(!Percent::new(0, 0).unwrap().above(0));
    assert!(Percent::new(1, 1000).unwrap().above(0));
}

#[test]
fn bar_colour_by_usage() {
    assert_eq!(bar_colour(Percent::new(0, 0).unwrap()), Tint::Green);
    assert_eq!(bar_colour(Percent::new(0, 100).unwrap()), Tint::Green);
    assert_eq!(bar_colour(Percent::new(75, 100).unwrap()), Tint::Green);
    assert_eq!(bar_colour(Percent::new(76, 100).unwrap()), Tint::Yellow);
    assert_eq!(bar_colour(Percent::new(90, 100).unwrap()), Tint::Yellow);
    assert_eq!(bar_colour(Percent::new(91, 100).unwrap()), Tint::Red);
    assert_eq!(bar_colour(Percent::new(100, 100).unwrap()), Tint::Red);
}

#[test]
fn text_helpers() {
    assert_eq!(chars_of("a\u{25a0}b"), vec!['a', '\u{25a0}', 'b']);
    assert_eq!(byte_count("a\u{25a0}b"), 5);
    assert!(has_prefix("/dev/sda", "/dev/"));
    assert!(has_prefix("abc", ""));
    assert!(!has_prefix("/dev", "/dev/"));
    assert!(has_char("a:b", ':'));
    assert!(!has_char("ab", ':'));
    assert!(same_text("abc", "abc"));
    assert!(!same_text("abc", "abd"));
    assert!(!same_text("abc", "ab"));
}

#[test]
fn decimal_numerals() {
    assert_eq!(decimal_text(0), "0");
    assert_eq!(decimal_text(7), "7");
    assert_eq!(decimal_text(10), "10");
    assert_eq!(decimal_text(1024), "1024");
    assert_eq!(decimal_text(u64::MAX), "18446744073709551615");
}

#[test]
fn padding_counts_characters() {
    assert_eq!(pad_left("1k", 5), "   1k");
    assert_eq!(pad_left("123456", 5), "123456");
    assert_eq!(pad_right("ab", 4), "ab  ");
    assert_eq!(pad_right("abcd", 4), "abcd");
    assert_eq!(pad_right("", 3), "   ");
    assert_eq!(pad_right("\u{25a0}", 3), format!("{:3}", "\u{25a0}"));
    assert_eq!(pad_left("\u{e9}t\u{e9}", 5), format!("{:>5}", "\u{e9}t\u{e9}"));
}

#[test]
fn lexicographic_order_follows_the_standard_one() {
    let words = ["", "a", "ab", "abc", "b", "B", "/dev/sda1", "/dev/sda10", "tmpfs", "\u{e9}", "z"];
    for a in words {
        for b in words {
            assert_eq!(comes_before(a, b), a < b, "{:?} and {:?}", a, b);
        }
    }
}

#[test]
fn modes_from_the_first_argument() {
    assert_eq!(mode(None), Mode::Report { show_all: false });
    assert_eq!(mode(Some("-a")), Mode::Report { show_all: true });
    assert_eq!(mode(Some("--all")), Mode::Report { show_all: true });
    assert_eq!(mode(Some("-V")), Mode::Version);
    assert_eq!(mode(Some("--version")), Mode::Version);
    assert_eq!(mode(Some("-h")), Mode::Usage);
    assert_eq!(mode(Some("--help")), Mode::Usage);
    assert_eq!(mode(Some("anything")), Mode::Usage);
    assert_eq!(mode(Some("")), Mode::Usage);
}
