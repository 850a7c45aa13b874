use gpu_gate::snapshot::{parse_cuda_info, GPUInfo};

#[test]
fn parses_one_record() {
    let parsed = parse_cuda_info(b"0, 35 %, 16384 MiB").expect("well-formed record");
    assert_eq!(parsed, vec![GPUInfo { index: 0, gpu_free: 65, memory_free: 16 }]);
}

#[test]
fn memory_conversion_rounds_down() {
    let parsed = parse_cuda_info(b"0, 5 %, 8191 MiB").expect("well-formed record");
    assert_eq!(parsed[0].memory_free, 7);
}

#[test]
fn utilization_stored_as_percent_free() {
    let parsed = parse_cuda_info(b"3, 0 %, 1024 MiB\n").expect("well-formed record");
    assert_eq!(parsed, vec![GPUInfo { index: 3, gpu_free: 100, memory_free: 1 }]);
}

#[test]
fn parses_several_lines_in_order() {
    let raw = b"0, 10 %, 2048 MiB\n1, 20 %, 4096 MiB\n2, 30 %, 1023 MiB\n";
    let parsed = parse_cuda_info(raw).expect("well-formed report");
    assert_eq!(
        parsed,
        vec![
            GPUInfo { index: 0, gpu_free: 90, memory_free: 2 },
            GPUInfo { index: 1, gpu_free: 80, memory_free: 4 },
            GPUInfo { index: 2, gpu_free: 70, memory_free: 0 },
        ]
    );
}

#[test]
fn empty_report_is_no_units() {
    assert_eq!(parse_cuda_info(b"").expect("empty report"), vec![]);
}

#[test]
fn blank_line_ends_the_report() {
    let raw = b"0, 10 %, 2048 MiB\n\n1, 20 %, 4096 MiB\n";
    let parsed = parse_cuda_info(raw).expect("report ends at the blank line");
    assert_eq!(parsed.len(), 1);
    assert_eq!(parsed[0].index, 0);
}

#[test]
fn missing_field_is_fatal() {
    assert!(parse_cuda_info(b"0, 35 %").is_err());
}

#[test]
fn missing_percent_suffix_is_fatal() {
    assert!(parse_cuda_info(b"0, 35, 16384 MiB").is_err());
}

#[test]
fn missing_memory_suffix_is_fatal() {
    assert!(parse_cuda_info(b"0, 35 %, 16384").is_err());
}

#[test]
fn garbled_number_is_fatal() {
    assert!(parse_cuda_info(b"zero, 35 %, 16384 MiB").is_err());
}

#[test]
fn busy_percentage_above_hundred_is_fatal() {
    assert!(parse_cuda_info(b"0, 101 %, 16384 MiB").is_err());
}

#[test]
fn one_bad_record_fails_the_whole_report() {
    let raw = b"0, 10 %, 2048 MiB\n1, bad, 4096 MiB\n";
    assert!(parse_cuda_info(raw).is_err());
}
