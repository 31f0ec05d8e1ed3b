//! Tests of the assembly templates, the code generator and the error
//! diagnostics.
use bfc::asm_generator::asm_instructions::{
    asm_cell_increment, asm_cell_ptr_increment, asm_data_init, asm_debug_memory, asm_exit,
    asm_loop_call, asm_loop_end, asm_loop_label, asm_loop_name, asm_main_init, asm_print_cell,
    asm_read_to_cell, asm_stdin_init, dec_string,
};
use bfc::asm_generator::{AsmContext, InternalError};
use bfc::diagnostics::diagnostic_for;
use bfc::grammar::{Expression, Operator, Token};
use bfc::parser::Parser;

fn generated(source: &str) -> String {
    let mut parser = Parser::new(String::from(source), true).expect("lexing failed");
    parser.generate_syntax_tree();
    let ast = parser.get_ast().expect("no tree").clone();
    let mut context = AsmContext::new();
    context.generate_asm(&ast).expect("generation failed")
}

#[test]
fn decimal_text_of_numbers() {
    assert_eq!(dec_string(0), "0");
    assert_eq!(dec_string(7), "7");
    assert_eq!(dec_string(42), "42");
    assert_eq!(dec_string(1234567890), "1234567890");
}

#[test]
fn loop_label_text() {
    assert_eq!(asm_loop_label(2, 3), "LOOP_L2_C3");
    assert_eq!(asm_loop_name(0, 1), "\nLOOP_L0_C1:");
    assert_eq!(
        asm_loop_call(0, 1),
        "\n    jmp     LOOP_L0_C1\n    LOOP_L0_C1_RET:\n    "
    );
}

#[test]
fn loop_end_rechecks_cell_and_jumps_back() {
    let end = asm_loop_end(1, 4);
    assert!(end.contains("cmp     $0, %eax"));
    assert!(end.contains("jne     LOOP_L1_C4"));
    assert!(end.contains("jmp LOOP_L1_C4_RET"));
}

#[test]
fn pointer_step_embeds_the_count() {
    assert_eq!(
        asm_cell_ptr_increment(5),
        "\n    add      $5, %edx \n"
    );
    let bump = asm_cell_increment(3);
    assert!(bump.contains("add      $3, %eax"));
    assert!(bump.contains("lea     array(%edx), %ebx"));
    assert!(bump.contains("mov    %eax, (%ebx)"));
}

#[test]
fn data_section_declares_the_26_cell_tape() {
    let data = asm_data_init();
    assert!(data.contains("array_len: .long 26"));
    assert!(data.contains("array: .space 26"));
}

#[test]
fn syscall_fragments_save_and_restore_roles() {
    for fragment in [asm_print_cell(), asm_read_to_cell()] {
        assert!(fragment.contains("mov     %ecx, %esi"));
        assert!(fragment.contains("mov     %edx, %edi"));
        assert!(fragment.contains("mov     %esi, %ecx"));
        assert!(fragment.contains("mov     %edi, %edx"));
        assert!(fragment.contains("int     $0x80"));
    }
    assert!(asm_print_cell().contains("movl    $4, %eax"));
    assert!(asm_read_to_cell().contains("movl    $3, %eax"));
    assert!(asm_read_to_cell().contains("input_prompt"));
}

#[test]
fn program_scaffolding_stands_in_fixed_order() {
    let text = generated("+.");
    let data_at = text.find(&asm_data_init()).expect("no data section");
    let main_at = text.find(&asm_main_init()).expect("no entry fragment");
    let exit_at = text.find(&asm_exit()).expect("no exit fragment");
    assert!(data_at < main_at && main_at < exit_at);
    assert!(!text.contains(&asm_stdin_init()));
}

#[test]
fn prompt_declaration_appears_only_with_input() {
    let with_input = generated("+,");
    assert!(with_input.contains(&asm_stdin_init()));
    let data_at = with_input.find(&asm_data_init()).expect("no data section");
    let prompt_at = with_input.find(&asm_stdin_init()).expect("no prompt");
    let main_at = with_input.find(&asm_main_init()).expect("no entry fragment");
    assert!(data_at < prompt_at && prompt_at < main_at);
}

#[test]
fn loop_identifiers_increase_in_preorder() {
    let text = generated("[[]][]");
    assert!(text.contains("LOOP_L0_C1"));
    assert!(text.contains("LOOP_L1_C2"));
    assert!(text.contains("LOOP_L0_C3"));
    assert!(!text.contains("LOOP_L0_C4"));
}

#[test]
fn loop_bodies_follow_the_main_flow() {
    let text = generated("+[-]");
    let exit_at = text.find(&asm_exit()).expect("no exit fragment");
    let body_at = text.find("\nLOOP_L0_C1:").expect("no loop body label");
    assert!(exit_at < body_at);
    let call_at = text.find("jmp     LOOP_L0_C1").expect("no loop call");
    assert!(call_at < exit_at);
}

#[test]
fn generator_rejects_bracket_operator_nodes() {
    let bad = vec![Expression::Operator(Operator { kind: Token::LoopStart, count: 1 })];
    let mut context = AsmContext::new();
    assert_eq!(context.generate_asm(&bad), Err(InternalError::UnexpectedNode));
}

#[test]
fn generator_annotates_runs_with_their_counts() {
    let text = generated("+++");
    assert!(text.contains("# Token::Add | Count:3"));
}

#[test]
fn diagnostic_locates_line_and_column() {
    let d = diagnostic_for("abc\ndefg", 5);
    assert_eq!(d.line, 2);
    assert_eq!(d.col, 1);
    assert_eq!(d.excerpt, "defg");
    assert_eq!(d.marker_offset, 1);
}

#[test]
fn diagnostic_excerpt_is_bounded() {
    let source = "0123456789012345678901234567890123456789";
    let d = diagnostic_for(source, 20);
    assert_eq!(d.excerpt.len(), 19);
    assert_eq!(d.marker_offset, 9);
    assert_eq!(d.excerpt, "1234567890123456789");
}

#[test]
fn diagnostic_excerpt_stops_at_line_breaks() {
    let d = diagnostic_for("ab\ncd]e\nfg", 5);
    assert_eq!(d.line, 2);
    assert_eq!(d.col, 2);
    assert_eq!(d.excerpt, "cd]e");
    assert_eq!(d.marker_offset, 2);
}

#[test]
fn debug_fragment_prints_the_whole_tape() {
    let debug = asm_debug_memory();
    assert!(debug.contains("DEBUG_PRINT_CELL_MEMORY"));
    assert!(debug.contains("movl    $array, %ecx"));
    assert!(debug.contains("movl    array_len, %edx"));
}

#[test]
fn empty_source_still_gets_full_scaffolding() {
    let text = generated("");
    assert!(text.starts_with("\n.data"));
    assert!(text.contains(&asm_main_init()));
    assert!(text.ends_with(&asm_exit()));
}

#[test]
fn syntax_trees_clone_deeply() {
    let mut parser = Parser::new(String::from("+[->+<]"), true).expect("lexing failed");
    parser.generate_syntax_tree();
    let ast = parser.get_ast().expect("no tree");
    let copy = ast.clone();
    assert_eq!(&copy, ast);
}
