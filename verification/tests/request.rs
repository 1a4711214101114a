use drd::analyse::{analyse_reads, analyse_writes, empty, NameSet};
use drd::parse;
use drd::request::{plan_request, run_request};

fn files(names: &[&str]) -> NameSet {
    NameSet {
        items: names.iter().map(|n| n.to_string()).collect(),
    }
}

#[test]
fn test_analyse_reads_writes() {
    let exp = parse("a = 1; a + b").unwrap();
    let reads = analyse_reads(&exp, &empty());
    assert!(reads.contains(&"b".to_string()));
    assert!(!reads.contains(&"a".to_string()));
    let writes = analyse_writes(&exp);
    assert!(writes.contains(&"a".to_string()));
    assert!(!writes.contains(&"b".to_string()));
}

#[test]
fn test_select_columns_not_reads() {
    let exp = parse("name <- Staff").unwrap();
    let reads = analyse_reads(&exp, &empty());
    assert!(reads.contains(&"Staff".to_string()));
    assert!(!reads.contains(&"name".to_string()));
}

#[test]
fn test_plan_request() {
    let store = files(&["T", "U"]);
    let (_, reads) = plan_request("T + V", &store).unwrap();
    assert!(reads.contains(&"T".to_string()));
    assert!(!reads.contains(&"U".to_string()));
    assert!(!reads.contains(&"V".to_string()));
    assert!(plan_request("1 +", &store).is_err());
}

#[test]
fn test_run_request_reads() {
    let store = files(&["T"]);
    let exp = parse("T + T").unwrap();
    let loaded = vec![("T".to_string(), "a:1".to_string())];
    let (response, writes) = run_request(&exp, &loaded, &store).unwrap();
    assert_eq!(response, "a:1,1");
    assert!(writes.is_empty());
}

#[test]
fn test_run_request_writes() {
    let store = files(&["T"]);
    let exp = parse("T = a : 2; T").unwrap();
    let loaded: Vec<(String, String)> = vec![];
    let (response, writes) = run_request(&exp, &loaded, &store).unwrap();
    assert_eq!(response, "a:2");
    assert_eq!(writes, vec![("T".to_string(), "a:2".to_string())]);
}

#[test]
fn test_run_request_new_binding_not_written() {
    let store = files(&["T"]);
    let exp = parse("U = a : 2; U").unwrap();
    let loaded: Vec<(String, String)> = vec![];
    let (_, writes) = run_request(&exp, &loaded, &store).unwrap();
    assert!(writes.is_empty());
}

#[test]
fn test_run_request_corrupt_file() {
    let store = files(&["T"]);
    let exp = parse("T").unwrap();
    let loaded = vec![("T".to_string(), "a : ".to_string())];
    assert!(run_request(&exp, &loaded, &store).is_err());
}
