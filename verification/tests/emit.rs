use mdtangle::assemble::CodeBlock;
use mdtangle::emit::{file_writes, Emitter};
use mdtangle::info::parse_info;

fn block(header: Option<&str>, body: &str) -> CodeBlock {
    CodeBlock::new(header.map(parse_info), String::from(body))
}

#[test]
fn no_blocks_no_writes() {
    assert_eq!(file_writes(&vec![]).len(), 0);
}

#[test]
fn block_without_info_is_skipped() {
    let writes = file_writes(&vec![block(None, "a")]);
    assert_eq!(writes.len(), 0);
}

#[test]
fn block_without_file_attribute_is_skipped() {
    let writes = file_writes(&vec![block(Some("rust name=x path=y"), "a"), block(Some(""), "b")]);
    assert_eq!(writes.len(), 0);
}

#[test]
fn targeted_blocks_are_written_in_order() {
    let blocks = vec![
        block(Some("a file=one.txt"), "1"),
        block(None, "skipped"),
        block(Some("b"), "skipped too"),
        block(Some("c x=y file=two.txt"), "2"),
        block(Some("d file=one.txt"), "3"),
    ];
    let writes = file_writes(&blocks);
    assert_eq!(writes.len(), 3);
    assert_eq!(writes[0].path().as_str(), "one.txt");
    assert_eq!(writes[0].content().as_str(), "1");
    assert_eq!(writes[1].path().as_str(), "two.txt");
    assert_eq!(writes[1].content().as_str(), "2");
    assert_eq!(writes[2].path().as_str(), "one.txt");
    assert_eq!(writes[2].content().as_str(), "3");
}

#[test]
fn content_is_written_without_added_newline() {
    let writes = file_writes(&vec![block(Some("x file=f"), "no newline at end")]);
    assert_eq!(writes[0].content().as_bytes(), b"no newline at end");
}

#[test]
fn empty_path_is_still_a_write() {
    let writes = file_writes(&vec![block(Some("x file="), "body")]);
    assert_eq!(writes.len(), 1);
    assert_eq!(writes[0].path().as_str(), "");
}

#[test]
fn file_key_is_exact() {
    let writes = file_writes(&vec![block(Some("x File=a files=b fil=c"), "body")]);
    assert_eq!(writes.len(), 0);
}

#[test]
fn emitter_offers_each_write_once_in_order() {
    let blocks = vec![
        block(Some("a file=one"), "1"),
        block(Some("b file=two"), "2"),
        block(Some("c file=three"), "3"),
    ];
    let mut emitter = Emitter::new(file_writes(&blocks));
    let mut seen = Vec::new();
    loop {
        let path = match emitter.pending() {
            Some(write) => write.path().clone(),
            None => break,
        };
        seen.push(path);
        emitter.record(true);
    }
    assert_eq!(seen, vec!["one".to_string(), "two".to_string(), "three".to_string()]);
    assert_eq!(emitter.failures(), 0);
    assert!(emitter.succeeded());
}

#[test]
fn emitter_goes_on_after_a_failure() {
    let blocks = vec![
        block(Some("a file=one"), "1"),
        block(Some("b file=two"), "2"),
        block(Some("c file=three"), "3"),
    ];
    let mut emitter = Emitter::new(file_writes(&blocks));
    assert_eq!(emitter.pending().unwrap().path().as_str(), "one");
    emitter.record(false);
    assert_eq!(emitter.pending().unwrap().path().as_str(), "two");
    assert!(!emitter.succeeded());
    emitter.record(true);
    assert_eq!(emitter.pending().unwrap().path().as_str(), "three");
    emitter.record(false);
    assert!(emitter.pending().is_none());
    assert_eq!(emitter.failures(), 2);
    assert!(!emitter.succeeded());
}

#[test]
fn emitter_with_nothing_to_do_succeeds() {
    let mut emitter = Emitter::new(Vec::new());
    assert!(emitter.pending().is_none());
    assert!(emitter.succeeded());
    emitter.record(false);
    assert_eq!(emitter.failures(), 0);
    assert!(emitter.succeeded());
}

#[test]
fn emitter_is_not_done_before_the_last_write() {
    let mut emitter = Emitter::new(file_writes(&vec![block(Some("a file=one"), "1")]));
    assert!(!emitter.succeeded());
    emitter.record(true);
    assert!(emitter.succeeded());
}
