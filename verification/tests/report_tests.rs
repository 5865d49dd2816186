use sshmon::json::render_report;
use sshmon::report::{build_report, ReportError, UtilizationReport};

#[test]
fn cpu_gets_percent_appended_unchecked() {
    let rep = build_report("12.5".to_string(), "25", "42%".to_string()).unwrap();
    assert_eq!(rep.cpu, "12.5%");
    let rep = build_report("not a number".to_string(), "25", "42%".to_string()).unwrap();
    assert_eq!(rep.cpu, "not a number%");
}

#[test]
fn disk_is_kept_verbatim() {
    let rep = build_report("12.5".to_string(), "25", "42%".to_string()).unwrap();
    assert_eq!(rep.disk, "42%");
    let rep = build_report("12.5".to_string(), "25", "whatever df said".to_string()).unwrap();
    assert_eq!(rep.disk, "whatever df said");
}

#[test]
fn memory_is_rendered_to_two_decimals() {
    let rep = build_report("1".to_string(), "25", "42%".to_string()).unwrap();
    assert_eq!(rep.memory, "25.00%");
    let rep = build_report("1".to_string(), "33.333333", "42%".to_string()).unwrap();
    assert_eq!(rep.memory, "33.33%");
}

#[test]
fn non_numeric_memory_fails_the_report() {
    let r = build_report("1".to_string(), "lots", "42%".to_string());
    assert_eq!(r.unwrap_err(), ReportError::MemoryNotNumeric);
}

#[test]
fn rendered_json_has_the_fixed_shape() {
    let rep = build_report("3.4".to_string(), "25", "42%".to_string()).unwrap();
    let text = render_report(&rep);
    assert_eq!(
        text,
        "{\n  \"cpu\": \"3.4%\",\n  \"memory\": \"25.00%\",\n  \"disk\": \"42%\"\n}"
    );
}

#[test]
fn rendered_json_escapes_strings() {
    let rep = UtilizationReport {
        cpu: "a\"b".to_string(),
        memory: "c\\d".to_string(),
        disk: "e\nf\tg\u{1}h".to_string(),
    };
    let text = render_report(&rep);
    assert_eq!(
        text,
        "{\n  \"cpu\": \"a\\\"b\",\n  \"memory\": \"c\\\\d\",\n  \"disk\": \"e\\nf\\tg\\u0001h\"\n}"
    );
}
