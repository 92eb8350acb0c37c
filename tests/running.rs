use radar_etl::batch::decode_bias_rows;
use radar_etl::date::JobDate;
use radar_etl::driver::{Command, Driver};
use radar_etl::rate::detection_rate;
use radar_etl::record::{BiasRecord, Cell};
use radar_etl::tenant::use_statement;

fn text(s: &str) -> Cell {
    Cell::Bytes(s.as_bytes().to_vec())
}

/// Runs the driver with canned outcomes, returning the commands carried out.
fn drive(count: usize, select_ok: &[bool]) -> Vec<Command> {
    let mut d = Driver::new(count);
    let mut seen = Vec::new();
    loop {
        let c = d.next();
        seen.push(c);
        let ok = match c {
            Command::Select(i) => select_ok[i],
            Command::Finish => break,
            _ => true,
        };
        d.record(ok);
    }
    seen
}

#[test]
fn each_tenant_selected_once_before_extraction() {
    assert_eq!(
        drive(3, &[true, false, true]),
        vec![
            Command::Select(0),
            Command::ExtractBiases(0),
            Command::ExtractRates(0),
            Command::Select(1),
            Command::Select(2),
            Command::ExtractBiases(2),
            Command::ExtractRates(2),
            Command::Finish
        ]
    );
    assert_eq!(drive(0, &[]), vec![Command::Finish]);
    assert_eq!(drive(2, &[false, false]), vec![Command::Select(0), Command::Select(1), Command::Finish]);
}

#[test]
fn failed_extraction_does_not_stop_the_run() {
    let mut d = Driver::new(2);
    assert_eq!(d.next(), Command::Select(0));
    d.record(true);
    assert_eq!(d.next(), Command::ExtractBiases(0));
    d.record(false);
    assert_eq!(d.next(), Command::ExtractRates(0));
    d.record(false);
    assert_eq!(d.next(), Command::Select(1));
    d.record(true);
    assert_eq!(d.next(), Command::ExtractBiases(1));
    d.record(true);
    d.record(true);
    assert_eq!(d.next(), Command::Finish);
    d.record(true);
    assert_eq!(d.next(), Command::Finish);
}

/// One simulated run over the two tenants: alpha answers, beta cannot be selected.
fn scenario_run(date: &JobDate, table: &mut Vec<(BiasRecord, String)>, diagnostics: &mut Vec<String>, rate_queries: &mut Vec<String>) {
    let tenants = vec!["job_verifsassuser_alpha".to_string(), "job_verifsassuser_beta".to_string()];
    let mut d = Driver::new(tenants.len());
    loop {
        let ok = match d.next() {
            Command::Finish => break,
            Command::Select(i) => {
                let ok = i == 0;
                if !ok {
                    diagnostics.push(format!("cannot select {}", tenants[i]));
                }
                ok
            }
            Command::ExtractBiases(_) => {
                let rows = vec![vec![
                    text("RADAR1"),
                    text("MODE_A"),
                    text("1.23456"),
                    text("-1"),
                    text("-1"),
                    text("-1"),
                    text("-1"),
                    text("-1"),
                    text("-1"),
                    text("-1"),
                ]];
                let out = decode_bias_rows(&rows);
                for rec in out.records {
                    table.push((rec, date.text()));
                }
                true
            }
            Command::ExtractRates(i) => {
                rate_queries.push(tenants[i].clone());
                true
            }
        };
        d.record(ok);
    }
}

#[test]
fn scenario_alpha_loads_beta_reported() {
    let date = JobDate::new(2023, 1, 1).unwrap();
    let mut table = Vec::new();
    let mut diagnostics = Vec::new();
    let mut rate_queries = Vec::new();
    scenario_run(&date, &mut table, &mut diagnostics, &mut rate_queries);
    assert_eq!(table.len(), 1);
    assert_eq!(table[0].0.radar_name, "RADAR1");
    assert_eq!(table[0].0.antenna_type, "MODE_A");
    assert_eq!(table[0].0.time_bias, 123456);
    assert_eq!(table[0].1, "01/01/2023");
    assert_eq!(diagnostics.len(), 1);
    assert!(diagnostics[0].contains("job_verifsassuser_beta"));
    assert_eq!(rate_queries, vec!["job_verifsassuser_alpha".to_string()]);
}

#[test]
fn rerun_appends_again() {
    let date = JobDate::new(2023, 1, 1).unwrap();
    let mut table = Vec::new();
    let mut diagnostics = Vec::new();
    let mut rate_queries = Vec::new();
    scenario_run(&date, &mut table, &mut diagnostics, &mut rate_queries);
    scenario_run(&date, &mut table, &mut diagnostics, &mut rate_queries);
    assert_eq!(table.len(), 2);
    assert_eq!(table[0].0.radar_name, table[1].0.radar_name);
    assert_eq!(table[1].1, "01/01/2023");
}

#[test]
fn job_date_text() {
    assert_eq!(JobDate::new(2023, 1, 1).unwrap().text(), "01/01/2023");
    assert_eq!(JobDate::new(987, 12, 31).unwrap().text(), "31/12/0987");
    assert!(JobDate::new(2023, 2, 29).is_none());
    assert!(JobDate::new(2024, 2, 29).is_some());
    assert!(JobDate::new(1900, 2, 29).is_none());
    assert!(JobDate::new(2000, 2, 29).is_some());
    assert!(JobDate::new(2023, 13, 1).is_none());
    assert!(JobDate::new(2023, 4, 31).is_none());
    assert!(JobDate::new(10000, 1, 1).is_none());
    assert!(JobDate::new(-1, 1, 1).is_none());
}

#[test]
fn job_date_parse() {
    let d = JobDate::parse(b"29/02/2024").unwrap();
    assert_eq!((d.year, d.month, d.day), (2024, 2, 29));
    assert_eq!(d.text(), "29/02/2024");
    assert!(JobDate::parse(b"29/02/2023").is_none());
    assert!(JobDate::parse(b"1/1/2023").is_none());
    assert!(JobDate::parse(b"01-01-2023").is_none());
    assert!(JobDate::parse(b"00/01/2023").is_none());
    assert!(JobDate::parse(b"01/01/20a3").is_none());
    assert!(JobDate::parse(b"01/01/2023 ").is_none());
}

#[test]
fn zero_denominator_is_no_data() {
    assert_eq!(detection_rate(0, 0), None);
    assert_eq!(detection_rate(7, 8), Some(8750000));
    assert_eq!(detection_rate(8, 8), Some(10000000));
    assert_eq!(detection_rate(0, 5), Some(0));
    assert_eq!(detection_rate(1, 3), Some(3333333));
    assert_eq!(detection_rate(2, 3), Some(6666667));
    assert_eq!(detection_rate(u64::MAX, u64::MAX), Some(10000000));
}

#[test]
fn tenant_identifier_is_quoted() {
    assert_eq!(use_statement("job_verifsassuser_alpha"), b"USE `job_verifsassuser_alpha`".to_vec());
    assert_eq!(use_statement("a`b"), b"USE `a``b`".to_vec());
    assert_eq!(use_statement(""), b"USE ``".to_vec());
}
