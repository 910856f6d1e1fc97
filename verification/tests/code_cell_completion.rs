use codex_core::code_cell_completion::CodeCellCompletion;

#[test]
fn renders_bounded_recovery_instruction() {
    let fragment = CodeCellCompletion::new("cell-1".to_string());

    assert_eq!(
        fragment.body(),
        "\n<cell_id>cell-1</cell_id>\n<instruction>The background code cell completed. Call functions.wait exactly once with this cell_id to retrieve its terminal result before continuing.</instruction>\n"
    );
}

#[test]
fn code_cell_completion_is_a_user_fragment_with_its_markers() {
    let fragment = CodeCellCompletion::new("cell-7".to_string());
    assert_eq!(fragment.cell_id, "cell-7");
    assert_eq!(fragment.role(), "user");
    assert_eq!(
        fragment.markers(),
        ("<code_cell_completion>", "</code_cell_completion>")
    );
    assert_eq!(CodeCellCompletion::type_markers(), fragment.markers());
}

#[test]
fn code_cell_completion_body_keeps_an_empty_cell_id() {
    let fragment = CodeCellCompletion::new(String::new());
    assert!(fragment.body().starts_with("\n<cell_id></cell_id>\n<instruction>"));
}
