use buffer_manager::protocol::{classify_line, parse_i32, split_fields, LineCommand};
use buffer_manager::reader::{delay_for, LocalBatch, Pacer, PipeReader, ReaderStep, BATCH_SIZE};

fn chars(s: &str) -> Vec<char> {
    s.chars().collect()
}

fn text(v: &[char]) -> String {
    v.iter().collect()
}

#[test]
fn split_fields_matches_str_split() {
    for line in ["RATE,100", "", ",", "a,,b", "A,1.5,-2,3e4", "no comma", "x,"] {
        let fields: Vec<String> = split_fields(line).iter().map(|f| text(f)).collect();
        let expected: Vec<String> = line.split(',').map(|s| s.to_string()).collect();
        assert_eq!(fields, expected);
        assert_eq!(fields.join(","), line);
    }
}

#[test]
fn parse_i32_accepts_decimal() {
    assert_eq!(parse_i32(&chars("0")), Some(0));
    assert_eq!(parse_i32(&chars("128")), Some(128));
    assert_eq!(parse_i32(&chars("+42")), Some(42));
    assert_eq!(parse_i32(&chars("-17")), Some(-17));
    assert_eq!(parse_i32(&chars("007")), Some(7));
    assert_eq!(parse_i32(&chars("2147483647")), Some(i32::MAX));
    assert_eq!(parse_i32(&chars("-2147483648")), Some(i32::MIN));
}

#[test]
fn parse_i32_rejects_other_text() {
    for s in ["", "+", "-", "2147483648", "-2147483649", "1a", " 1", "1 ", "--1", "+-1", "1.0", "99999999999999999999"] {
        assert_eq!(parse_i32(&chars(s)), None, "{:?}", s);
        assert!(s.parse::<i32>().is_err());
    }
}

#[test]
fn parse_i32_agrees_with_std() {
    for s in ["5", "-5", "+0", "-0", "65535", "000123", "2147483646", "-2147483647"] {
        assert_eq!(parse_i32(&chars(s)), s.parse::<i32>().ok(), "{:?}", s);
    }
}

#[test]
fn classify_control_lines() {
    assert!(matches!(classify_line("RATE,100"), LineCommand::Rate(Some(100))));
    assert!(matches!(classify_line("RATE,abc"), LineCommand::Rate(None)));
    assert!(matches!(classify_line("AVAIL,120"), LineCommand::Avail(Some(120))));
    assert!(matches!(classify_line("AVAIL,"), LineCommand::Avail(None)));
    assert!(matches!(classify_line("RATE,1,2"), LineCommand::Ignored));
    assert!(matches!(classify_line("RATE"), LineCommand::Ignored));
    assert!(matches!(classify_line("rate,100"), LineCommand::Ignored));
}

#[test]
fn classify_reading_lines() {
    match classify_line("T,21.5") {
        LineCommand::Thermo(v) => assert_eq!(text(&v), "21.5"),
        _ => panic!("expected a temperature"),
    }
    match classify_line("A,0.1,-9.8,3") {
        LineCommand::Accel(x, y, z) => {
            assert_eq!(text(&x), "0.1");
            assert_eq!(text(&y), "-9.8");
            assert_eq!(text(&z), "3");
        }
        _ => panic!("expected an acceleration"),
    }
    match classify_line("F,1,2,3") {
        LineCommand::Force(x, y, z) => {
            assert_eq!((text(&x), text(&y), text(&z)), ("1".to_string(), "2".to_string(), "3".to_string()));
        }
        _ => panic!("expected a force"),
    }
    assert!(matches!(classify_line("T"), LineCommand::Ignored));
    assert!(matches!(classify_line("T,1,2"), LineCommand::Ignored));
    assert!(matches!(classify_line("A,1,2"), LineCommand::Ignored));
    assert!(matches!(classify_line("F,1,2,3,4"), LineCommand::Ignored));
    assert!(matches!(classify_line(""), LineCommand::Ignored));
    assert!(matches!(classify_line("X,1"), LineCommand::Ignored));
}

#[test]
fn delay_boundaries() {
    // rate 100: free slots 7 fill in 0.07 s, 8 in 0.08 s, 19 in 0.19 s, 20 in 0.2 s
    assert_eq!(delay_for(100, 128 - 7), 0);
    assert_eq!(delay_for(100, 128 - 8), 50);
    assert_eq!(delay_for(100, 128 - 19), 50);
    assert_eq!(delay_for(100, 128 - 20), 200);
    assert_eq!(delay_for(1, 200), 0);
    assert_eq!(delay_for(1000, 0), 50);
    assert_eq!(delay_for(1000, i32::MIN), 200);
}

#[test]
fn delay_agrees_with_float_emergence() {
    for rate in [1i32, 3, 7, 25, 100, 1000, 12345] {
        for avail in [-1000i32, -1, 0, 1, 50, 100, 120, 127, 128, 129, 500] {
            let emergence = (128 - avail) as f64 / rate as f64;
            let expected = if emergence < 0.08 { 0 } else if emergence < 0.2 { 50 } else { 200 };
            assert_eq!(delay_for(rate, avail), expected, "rate {} avail {}", rate, avail);
        }
    }
}

#[test]
fn pacer_follows_reports() {
    let mut p = Pacer::new();
    assert_eq!(p.rate(), 0);
    assert_eq!(p.last_available(), 128);
    assert_eq!(p.delay_micros(), 100);
    // no rate yet: the availability is kept, the pause stays
    assert!(p.apply(&classify_line("AVAIL,127")));
    assert_eq!(p.last_available(), 127);
    assert_eq!(p.delay_micros(), 100);
    assert!(p.apply(&classify_line("RATE,100")));
    assert_eq!(p.rate(), 100);
    assert_eq!(p.delay_micros(), 100);
    assert!(p.apply(&classify_line("AVAIL,127")));
    assert_eq!(p.delay_micros(), 0);
    assert!(p.apply(&classify_line("AVAIL,100")));
    assert_eq!(p.delay_micros(), 200);
    assert!(p.apply(&classify_line("T,1.0")));
    assert_eq!(p.delay_micros(), 200);
    assert!(!p.apply(&classify_line("RATE,fast")));
    assert_eq!(p.rate(), 100);
}

#[test]
fn batch_hands_over_every_twenty() {
    let mut b = LocalBatch::new();
    let mut handed: Vec<Vec<u32>> = Vec::new();
    for x in 0..45u32 {
        if let Some(full) = b.add(x) {
            assert_eq!(full.len(), BATCH_SIZE);
            handed.push(full);
        }
    }
    assert_eq!(handed.len(), 2);
    assert_eq!(b.len(), 5);
    let rest = b.finish().unwrap();
    let mut all: Vec<u32> = handed.concat();
    all.extend(rest);
    assert_eq!(all, (0..45).collect::<Vec<u32>>());
}

#[test]
fn batch_finish_empty() {
    let b: LocalBatch<u8> = LocalBatch::new();
    assert!(b.finish().is_none());
    let mut b = LocalBatch::new();
    for x in 0..20u8 {
        let out = b.add(x);
        assert_eq!(out.is_some(), x == 19);
    }
    assert!(b.finish().is_none());
}

#[test]
fn pacer_ignores_availability_without_positive_rate() {
    let mut p = Pacer::new();
    assert!(p.apply(&classify_line("RATE,-5")));
    assert!(p.apply(&classify_line("AVAIL,0")));
    assert_eq!(p.rate(), -5);
    assert_eq!(p.last_available(), 0);
    assert_eq!(p.delay_micros(), 100);
    assert!(!p.apply(&classify_line("AVAIL,x")));
    assert_eq!(p.last_available(), 0);
}

/// Runs a reader over `lines`, giving each reading line the number `i` of
/// the line as its reading, and returns the readings handed over in order.
fn run_reader(lines: &[&str], paced: bool) -> Vec<usize> {
    let mut r = PipeReader::new(paced);
    let mut out = Vec::new();
    for (i, line) in lines.iter().enumerate() {
        let cmd = classify_line(line);
        let reading = match cmd {
            LineCommand::Thermo(_) | LineCommand::Accel(..) | LineCommand::Force(..) => Some(i),
            _ => None,
        };
        match r.step(&cmd, reading, true) {
            ReaderStep::Next(Some(b)) => out.extend(b),
            ReaderStep::Next(None) => {}
            other => panic!("unexpected step {}", matches!(other, ReaderStep::Stop)),
        }
    }
    if let Some(rest) = r.finish() {
        out.extend(rest);
    }
    out
}

#[test]
fn reader_hands_over_every_reading_in_order() {
    let mut lines = vec!["RATE,100"];
    for k in 0..25 {
        lines.push(if k % 3 == 0 { "T,1.0" } else if k % 3 == 1 { "A,1,2,3" } else { "F,1,2,3" });
        lines.push("AVAIL,120");
        lines.push("junk");
    }
    let with_control = run_reader(&lines, true);
    let expected: Vec<usize> = (0..lines.len())
        .filter(|&i| lines[i].starts_with('T') || lines[i].starts_with("A,") || lines[i].starts_with('F'))
        .collect();
    assert_eq!(with_control, expected);
    assert_eq!(run_reader(&lines, false), expected);
}

#[test]
fn reader_paces_only_when_paced() {
    let mut paced: PipeReader<u8> = PipeReader::new(true);
    let mut plain: PipeReader<u8> = PipeReader::new(false);
    for line in ["RATE,100", "AVAIL,127"] {
        let cmd = classify_line(line);
        assert!(matches!(paced.step(&cmd, None, true), ReaderStep::Next(None)));
        assert!(matches!(plain.step(&cmd, None, true), ReaderStep::Next(None)));
    }
    assert_eq!(paced.delay_micros(), 0);
    assert_eq!(plain.delay_micros(), 100);
    let bad = classify_line("RATE,x");
    assert!(matches!(paced.step(&bad, None, true), ReaderStep::Malformed));
    assert!(matches!(plain.step(&bad, None, true), ReaderStep::Next(None)));
}

#[test]
fn reader_stops_when_not_running() {
    let mut r: PipeReader<u8> = PipeReader::new(true);
    assert!(matches!(r.step(&classify_line("T,1"), Some(1), true), ReaderStep::Next(None)));
    assert!(matches!(r.step(&classify_line("T,2"), Some(2), false), ReaderStep::Stop));
    assert_eq!(r.finish(), Some(vec![1]));
}
