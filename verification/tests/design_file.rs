use designlibre::read_design_file;
use designlibre::write_design_file;

#[test]
fn read_ok_echoes_path_and_content() {
    let r = read_design_file("designs/logo.dl".to_string(), Ok("shapes: []".to_string()));
    let file = r.expect("a successful read yields a design file");
    assert_eq!(file.path, "designs/logo.dl");
    assert_eq!(file.content, "shapes: []");
}

#[test]
fn read_content_round_trips_exactly() {
    let content = "line one\nline two\n\ttabbed — ünïcödé ok\n";
    let r = read_design_file("any.dl".to_string(), Ok(content.to_string()));
    assert_eq!(r.unwrap().content, content);
}

#[test]
fn read_failure_embeds_cause_in_message() {
    let cause = "No such file or directory (os error 2)";
    let r = read_design_file("missing.dl".to_string(), Err(cause.to_string()));
    let message = r.expect_err("a failed read yields an error message");
    assert_eq!(message, format!("Failed to read file: {}", cause));
    assert!(message.contains("Failed to read file:"));
}

#[test]
fn write_ok_passes_through() {
    assert!(write_design_file(Ok(())).is_ok());
}

#[test]
fn write_failure_embeds_cause_in_message() {
    let cause = "No such file or directory (os error 2)";
    let r = write_design_file(Err(cause.to_string()));
    let message = r.expect_err("a failed write yields an error message");
    assert_eq!(message, format!("Failed to write file: {}", cause));
    assert!(message.contains("Failed to write file:"));
}

#[test]
fn empty_content_round_trips() {
    let r = read_design_file("empty.dl".to_string(), Ok(String::new()));
    assert_eq!(r.unwrap().content, "");
}
