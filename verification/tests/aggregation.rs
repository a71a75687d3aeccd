use memstats::sample::Sample;
use memstats::summary::Report;
use memstats::summary::Summary;
use memstats::timestamp::Timestamp;

fn stamp() -> Timestamp {
    Timestamp { year: 2018, month: 2, day: 27, hour: 16, minute: 32, second: 13, micros: 802940 }
}

fn sample(total: u64, free: u64, swap_total: u64, swap_free: u64) -> Sample {
    Sample {
        timestamp: stamp(),
        total,
        free,
        available: 300,
        buffers: 50,
        cached: 50,
        swap_total,
        swap_free,
    }
}

#[test]
fn empty_summary_reports_no_data_everywhere() {
    let summary = Summary::default();
    let report = summary.render();
    assert_eq!(
        report,
        Report {
            average_ram: None,
            average_swap: None,
            max_ram: None,
            max_swap: None,
            total_ram: None,
        }
    );
}

#[test]
fn scenario_single_sample() {
    let mut summary = Summary::default();
    summary.apply(&sample(1000, 200, 500, 100));
    let report = summary.render();
    assert_eq!(report.average_ram, Some(800));
    assert_eq!(report.average_swap, Some(400));
    assert_eq!(report.max_ram, Some(800));
    assert_eq!(report.max_swap, Some(400));
    assert_eq!(report.total_ram, Some(1000));
}

#[test]
fn scenario_second_sample_moves_the_peak_not_the_capture() {
    let mut summary = Summary::default();
    summary.apply(&sample(1000, 200, 500, 100));
    summary.apply(&sample(2000, 500, 500, 100));
    let report = summary.render();
    assert_eq!(report.max_ram, Some(1500));
    assert_eq!(report.average_ram, Some(1150));
    assert_eq!(report.total_ram, Some(1000));
}

#[test]
fn average_truncates() {
    let mut summary = Summary::default();
    summary.apply(&sample(10, 0, 0, 0));
    summary.apply(&sample(11, 0, 0, 0));
    summary.apply(&sample(12, 0, 0, 0));
    let report = summary.render();
    // (10 + 11 + 12) / 3 == 11 exactly; (10 + 11) / 2 truncates to 10.
    assert_eq!(report.average_ram, Some(11));
    let mut two = Summary::default();
    two.apply(&sample(10, 0, 0, 0));
    two.apply(&sample(11, 0, 0, 0));
    assert_eq!(two.render().average_ram, Some(10));
}

#[test]
fn peak_keeps_the_greatest_sample() {
    let mut summary = Summary::default();
    summary.apply(&sample(500, 100, 90, 10));
    summary.apply(&sample(300, 0, 20, 20));
    summary.apply(&sample(450, 100, 80, 0));
    let report = summary.render();
    assert_eq!(report.max_ram, Some(400));
    assert_eq!(report.max_swap, Some(80));
    assert_eq!(report.average_ram, Some((400 + 300 + 350) / 3));
    assert_eq!(report.average_swap, Some(53));
    assert_eq!(report.total_ram, Some(500));
}

#[test]
fn zero_usage_samples_report_zero_not_no_data() {
    let mut summary = Summary::default();
    summary.apply(&sample(100, 100, 50, 50));
    let report = summary.render();
    assert_eq!(report.average_ram, Some(0));
    assert_eq!(report.max_ram, Some(0));
    assert_eq!(report.max_swap, Some(0));
    assert_eq!(report.total_ram, Some(100));
}

#[test]
fn capture_is_pinned_even_when_later_totals_shrink() {
    let mut summary = Summary::default();
    summary.apply(&sample(700, 0, 0, 0));
    summary.apply(&sample(5, 0, 0, 0));
    summary.apply(&sample(9000, 0, 0, 0));
    assert_eq!(summary.render().total_ram, Some(700));
}

#[test]
fn parse_then_fold_end_to_end() {
    let lines = [
        "2018-02-27 16:32:13.802940 UTC,1000,200,300,50,50,500,100",
        "2018-02-27 16:32:14.802940 UTC,2000,500,300,50,50,500,100",
    ];
    let mut summary = Summary::default();
    for line in lines {
        let m = Sample::from_str(line).unwrap();
        summary.apply(&m);
    }
    let report = summary.render();
    assert_eq!(report.average_ram, Some(1150));
    assert_eq!(report.max_ram, Some(1500));
    assert_eq!(report.average_swap, Some(400));
    assert_eq!(report.max_swap, Some(400));
    assert_eq!(report.total_ram, Some(1000));
}
