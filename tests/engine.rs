use grid_search::args::Options;
use grid_search::best::BestState;
use grid_search::config::VariableConfig;
use grid_search::float_range::FloatRange;
use grid_search::grid::{generate_combinations, generate_loops, get_constant_strings};
use grid_search::metric::{get_profit, parse_fixed3};
use grid_search::paths::{bucket_dirs, get_log_path, get_script_path};
use grid_search::task::{report_row, task_metric, RunOutcome};
use grid_search::template::{replace_constants, template_ok};
use grid_search::text::push_fixed3;

fn var(name: &str, start: i64, end: i64, step: i64) -> VariableConfig {
    VariableConfig { name: name.to_string(), start, end, step }
}

#[test]
fn range_half_open_up() {
    assert_eq!(FloatRange::new(0, 2000, 1000).values(), vec![0, 1000]);
    assert_eq!(FloatRange::new(0, 3000, 1500).values(), vec![0, 1500]);
    assert_eq!(FloatRange::new(0, 2500, 1000).values(), vec![0, 1000, 2000]);
}

#[test]
fn range_downwards() {
    assert_eq!(FloatRange::new(1000, -1000, -500).values(), vec![1000, 500, 0, -500]);
}

#[test]
fn range_without_progress_is_empty() {
    assert!(FloatRange::new(0, 1000, 0).values().is_empty());
    assert!(FloatRange::new(0, 1000, -100).values().is_empty());
    assert!(FloatRange::new(1000, 0, 100).values().is_empty());
    assert!(FloatRange::new(500, 500, 100).values().is_empty());
}

#[test]
fn range_next_steps_then_stops() {
    let mut r = FloatRange::new(10, 30, 10);
    assert_eq!(r.next(), Some(10));
    assert_eq!(r.current, 20);
    assert_eq!(r.next(), Some(20));
    assert_eq!(r.current, 30);
    assert_eq!(r.next(), None);
    assert_eq!(r.current, 30);
    assert_eq!(r.next(), None);
    let mut down = FloatRange::new(5, 0, -3);
    assert_eq!(down.next(), Some(5));
    assert_eq!(down.next(), Some(2));
    assert_eq!(down.current, -1);
    assert_eq!(down.next(), None);
    assert_eq!(down.current, -1);
}

#[test]
fn range_near_the_top_does_not_overflow() {
    let r = FloatRange::new(i64::MAX - 5, i64::MAX, 4);
    assert_eq!(r.values(), vec![i64::MAX - 5, i64::MAX - 1]);
}

#[test]
fn grid_of_two_ranges_in_order() {
    let vars = vec![var("A", 0, 2000, 1000), var("B", 0, 3000, 1500)];
    let loops = generate_loops(&vars);
    assert_eq!(
        generate_combinations(&loops),
        vec![vec![0, 0], vec![0, 1500], vec![1000, 0], vec![1000, 1500]]
    );
    assert_eq!(
        get_constant_strings(&vars),
        vec![
            "A = 0.000\nB = 0.000".to_string(),
            "A = 0.000\nB = 1.500".to_string(),
            "A = 1.000\nB = 0.000".to_string(),
            "A = 1.000\nB = 1.500".to_string(),
        ]
    );
}

#[test]
fn grid_size_is_product() {
    let vars = vec![var("A", 0, 3, 1), var("B", 0, 4, 1), var("C", 10, 0, -5)];
    assert_eq!(get_constant_strings(&vars).len(), 3 * 4 * 2);
}

#[test]
fn grid_with_an_empty_range_is_empty() {
    let vars = vec![var("A", 0, 3, 1), var("B", 0, 0, 1)];
    assert!(get_constant_strings(&vars).is_empty());
}

#[test]
fn grid_without_parameters_has_one_empty_combination() {
    let vars: Vec<VariableConfig> = Vec::new();
    assert_eq!(get_constant_strings(&vars), vec![String::new()]);
}

#[test]
fn fixed_point_notation() {
    let mut s = String::new();
    push_fixed3(&mut s, -1250);
    assert_eq!(s, "-1.250");
    let mut s = String::new();
    push_fixed3(&mut s, 7);
    assert_eq!(s, "0.007");
    let mut s = String::new();
    push_fixed3(&mut s, i64::MIN);
    assert_eq!(s, "-9223372036854775.808");
}

#[test]
fn shard_paths() {
    assert_eq!(get_log_path(250, "logs"), "logs/200-299/logs/log_250.txt");
    assert_eq!(get_log_path(0, "logs"), "logs/0-99/logs/log_0.txt");
    assert_eq!(get_script_path(0, "logs"), "logs/0-99/scripts/script_0.py");
    assert_eq!(get_script_path(99, "out"), "out/0-99/scripts/script_99.py");
    assert_eq!(get_script_path(100, "out"), "out/100-199/scripts/script_100.py");
}

#[test]
fn shard_buckets_for_a_sweep() {
    assert_eq!(
        bucket_dirs(250, "logs"),
        vec!["logs/0-99".to_string(), "logs/100-199".to_string(), "logs/200-299".to_string()]
    );
    assert_eq!(bucket_dirs(200, "logs").len(), 2);
    assert!(bucket_dirs(0, "logs").is_empty());
}

#[test]
fn metric_with_grouping() {
    assert_eq!(get_profit("Total profit: 1,234.50"), Some(1234500));
}

#[test]
fn metric_absent_is_not_zero() {
    assert_eq!(get_profit("no relevant line"), None);
    assert_eq!(get_profit("Total profit: 0"), Some(0));
    assert_eq!(get_profit(""), None);
}

#[test]
fn metric_first_parsable_label_wins() {
    let out = "start\nTotal profit: n/a\nTotal profit: 12\nTotal profit: 99\n";
    assert_eq!(get_profit(out), Some(12000));
}

#[test]
fn metric_reads_the_numeral_after_the_label() {
    assert_eq!(get_profit("Total profit: 5 USD"), Some(5000));
    assert_eq!(get_profit("Total profit: 5, day 3"), Some(5000));
    assert_eq!(get_profit("day 3: Total profit:\t\t42.5"), Some(42500));
    assert_eq!(get_profit("Total profit:\u{A0}7"), Some(7000));
    assert_eq!(get_profit("Total profit 5"), None);
    assert_eq!(get_profit("Total profit: 1.2345"), Some(1234));
}

#[test]
fn metric_negative_and_trailing_space() {
    assert_eq!(get_profit("x\r\nTotal profit: -3,000.1 \r\n"), Some(-3000100));
}

#[test]
fn numerals() {
    let p = |s: &str| parse_fixed3(&s.chars().collect::<Vec<char>>());
    assert_eq!(p(".5"), Some(500));
    assert_eq!(p("+2."), Some(2000));
    assert_eq!(p("1.2345"), Some(1234));
    assert_eq!(p("-1.2349"), Some(-1234));
    assert_eq!(p("1.2a45"), None);
    assert_eq!(p("-"), None);
    assert_eq!(p("."), None);
    assert_eq!(p("1e3"), None);
    assert_eq!(p("9223372036854775.807"), Some(i64::MAX));
    assert_eq!(p("-9223372036854775.808"), Some(i64::MIN));
    assert_eq!(p("9223372036854775.808"), None);
    assert_eq!(p("99999999999999999999"), None);
}

#[test]
fn template_splice() {
    let t = "import x\n# start\nA = 1\nB = 2\n# end\nrun()\n";
    assert!(template_ok(t));
    assert_eq!(
        replace_constants(t, "A = 5.000\nB = 6.000"),
        "import x\n# start\nA = 5.000\nB = 6.000\n# end\nrun()\n"
    );
}

#[test]
fn template_adjacent_markers() {
    assert!(template_ok("# start\n# end"));
    assert_eq!(replace_constants("# start\n# end", "X = 1.000"), "# start\nX = 1.000\n# end");
}

#[test]
fn template_first_marker_lines_count() {
    let t = "# start here\nold\n# end\nkeep\n# end\n";
    assert_eq!(replace_constants(t, "Y = 2.000"), "# start here\nY = 2.000\n# end\nkeep\n# end\n");
}

#[test]
fn template_refused() {
    assert!(!template_ok("no markers"));
    assert!(!template_ok("a\n# start\n"));
    assert!(!template_ok("a\n# end\n"));
    assert!(!template_ok("# end\n# start\n"));
    assert!(!template_ok("# start # end"));
    assert!(!template_ok(""));
}

#[test]
fn best_keeps_the_strict_maximum() {
    let mut b = BestState::new();
    assert!(!b.record(None, "A = 1.000"));
    assert_eq!(b.max_metric, None);
    assert!(b.record(Some(-5), "A = 2.000"));
    assert!(b.record(Some(10), "A = 3.000"));
    assert!(!b.record(Some(10), "A = 4.000"));
    assert!(!b.record(Some(3), "A = 5.000"));
    assert!(!b.record(None, "A = 6.000"));
    assert_eq!(b.max_metric, Some(10));
    assert_eq!(b.constants, "A = 3.000");
}

#[test]
fn best_is_independent_of_arrival_order() {
    let results = [(Some(4), "a"), (None, "b"), (Some(9), "c"), (Some(-1), "d")];
    let orders = [[0, 1, 2, 3], [3, 2, 1, 0], [2, 0, 3, 1], [1, 3, 0, 2]];
    for order in orders.iter() {
        let mut b = BestState::new();
        for &i in order.iter() {
            b.record(results[i].0, results[i].1);
        }
        assert_eq!(b.max_metric, Some(9));
        assert_eq!(b.constants, "c");
    }
}

#[test]
fn timeout_gives_no_metric() {
    assert_eq!(task_metric(&RunOutcome::TimedOut), None);
    assert_eq!(task_metric(&RunOutcome::SpawnFailed), None);
    let failed = RunOutcome::Completed { stdout: "Total profit: 5".to_string(), success: false };
    assert_eq!(task_metric(&failed), None);
    let ok = RunOutcome::Completed { stdout: "Total profit: 5".to_string(), success: true };
    assert_eq!(task_metric(&ok), Some(5000));
}

#[test]
fn record_rows() {
    assert_eq!(report_row(&vec![1000, -1500], Some(2500)), "1.000,-1.500,2.500");
    assert_eq!(report_row(&vec![0], None), "0.000,0.000");
}

#[test]
fn option_defaults() {
    let o = Options { config: String::new(), threads: 255 }.with_defaults(8);
    assert_eq!(o.config, "config.json");
    assert_eq!(o.threads, 8);
    let o = Options { config: "c.json".to_string(), threads: 3 }.with_defaults(8);
    assert_eq!(o.config, "c.json");
    assert_eq!(o.threads, 3);
    assert_eq!(Options { config: String::new(), threads: 255 }.with_defaults(1000).threads, 255);
    assert_eq!(Options { config: String::new(), threads: 255 }.with_defaults(255).threads, 255);
    assert_eq!(Options { config: String::new(), threads: 255 }.with_defaults(254).threads, 254);
    assert_eq!(Options { config: String::new(), threads: 255 }.with_defaults(0).threads, 1);
}
