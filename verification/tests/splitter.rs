use influxproxy::text::{chars_of, split_trimmed, trim_chars};
use influxproxy::{extract_data, ingest, Metric};

fn payloads(records: &[Metric]) -> Vec<String> {
    records.iter().map(|m| m.data().clone()).collect()
}

#[test]
fn one_record_per_piece_between_newlines() {
    let body = "cpu value=1\nmem value=2\n\ndisk value=3\n";
    let records = extract_data("b1".to_string(), "o1".to_string(), body.to_string());
    assert_eq!(records.len(), body.matches('\n').count() + 1);
    assert_eq!(records.len(), 5);
    assert_eq!(
        payloads(&records),
        vec!["cpu value=1", "mem value=2", "", "disk value=3", ""]
    );
}

#[test]
fn every_record_carries_the_destination() {
    let records = extract_data("bucket".to_string(), "org".to_string(), "a\nb\nc".to_string());
    assert_eq!(records.len(), 3);
    for record in &records {
        assert_eq!(record.bucket(), "bucket");
        assert_eq!(record.org(), "org");
    }
}

#[test]
fn empty_body_is_one_empty_record() {
    let records = extract_data("b".to_string(), "o".to_string(), String::new());
    assert_eq!(payloads(&records), vec![""]);
}

#[test]
fn only_newlines_give_empty_records() {
    let records = extract_data("b".to_string(), "o".to_string(), "\n\n\n".to_string());
    assert_eq!(payloads(&records), vec!["", "", "", ""]);
}

#[test]
fn pieces_are_trimmed_on_both_sides() {
    let records = extract_data(
        "b".to_string(),
        "o".to_string(),
        "  cpu value=1 \t\r\n\u{a0}mem value=2\u{3000}\n \t ".to_string(),
    );
    assert_eq!(payloads(&records), vec!["cpu value=1", "mem value=2", ""]);
}

#[test]
fn inner_whitespace_is_kept() {
    let records = extract_data("b".to_string(), "o".to_string(), " a  b \n".to_string());
    assert_eq!(payloads(&records), vec!["a  b", ""]);
}

#[test]
fn destination_is_not_normalized() {
    let records = extract_data(" B ".to_string(), "Org".to_string(), "x".to_string());
    assert_eq!(records[0].bucket(), " B ");
    assert_eq!(records[0].org(), "Org");
}

#[test]
fn splitting_agrees_with_split_and_trim() {
    let bodies = [
        "",
        "\n",
        "a",
        "a\n",
        "\na",
        " a \n b \n",
        "x y\n\n\nz\r\n",
        "héllo wörld \n ünïcode\u{2003}",
    ];
    for body in bodies {
        let expected: Vec<String> = body.split("\n").map(|v| v.trim().to_string()).collect();
        assert_eq!(split_trimmed(body), expected);
    }
}

#[test]
fn chars_come_out_in_order() {
    assert_eq!(chars_of("aé\n"), vec!['a', 'é', '\n']);
    assert_eq!(chars_of(""), Vec::<char>::new());
}

#[test]
fn trim_of_all_whitespace_is_empty() {
    assert_eq!(trim_chars(&vec![' ', '\t', '\r']), "");
    assert_eq!(trim_chars(&vec![]), "");
    assert_eq!(trim_chars(&vec![' ', 'x', ' ', 'y', ' ']), "x y");
}

#[test]
fn ingest_decodes_valid_utf8() {
    let records = ingest("b".to_string(), "o".to_string(), "cpu v=1\nm\u{e9}m v=2".as_bytes());
    assert_eq!(payloads(&records), vec!["cpu v=1", "m\u{e9}m v=2"]);
}

#[test]
fn ingest_replaces_invalid_bytes() {
    let body: [u8; 7] = [b'a', 0xff, b'b', b'\n', 0xc3, b' ', b'c'];
    let records = ingest("b".to_string(), "o".to_string(), &body);
    assert_eq!(payloads(&records), vec!["a\u{fffd}b", "\u{fffd} c"]);
    assert_eq!(records[1].bucket(), "b");
    assert_eq!(records[1].org(), "o");
}

#[test]
fn ingest_of_nothing_is_one_empty_record() {
    let records = ingest("b".to_string(), "o".to_string(), &[]);
    assert_eq!(payloads(&records), vec![""]);
}

#[test]
fn metric_gives_back_its_parts() {
    let metric = Metric::new("d".to_string(), "o".to_string(), "b".to_string());
    assert_eq!(metric.data(), "d");
    assert_eq!(metric.org(), "o");
    assert_eq!(metric.bucket(), "b");
    assert_eq!(
        metric.into_parts(),
        ("d".to_string(), "o".to_string(), "b".to_string())
    );
}
