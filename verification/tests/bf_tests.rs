use bf_macros::ast::BfOperator;
use bf_macros::codegen::usize_to_string;
use bf_macros::machine::VmFault;
use bf_macros::parser::{parse_all, tokenize_bf_string};
use bf_macros::script::{BfError, BfScript, MacroArg, ScriptSource};
use bf_macros::vm::{BfVM, VmHalt};

const FUEL: u64 = 1_000_000;

fn args(cells: &str, negative_ptrs: &str) -> Vec<MacroArg> {
    vec![
        MacroArg::TypeArg,
        MacroArg::IntArg(String::from(cells)),
        MacroArg::IntArg(String::from(negative_ptrs)),
    ]
}

fn literal(s: &str) -> ScriptSource {
    ScriptSource::Literal(String::from(s))
}

fn run(cells: &str, negative_ptrs: &str, src: &str) -> Result<String, VmHalt> {
    let script = BfScript::parse(&args(cells, negative_ptrs), &literal(src)).unwrap();
    let mut vm = BfVM::new(script);
    vm.execute(FUEL)
}

#[test]
fn three_increments_output_code_three() {
    assert_eq!(run("1", "0", "+++.").unwrap(), "\u{3}".to_string());
}

#[test]
fn loop_accumulation_outputs_code_110() {
    let out = run("2", "0", "++++++++++[>+++++++++++<-]>.").unwrap();
    assert_eq!(out, "n".to_string());
}

#[test]
fn unmatched_open_bracket_is_rejected() {
    let r = BfScript::parse(&args("1", "0"), &literal("["));
    assert_eq!(r.unwrap_err(), BfError::UnmatchedOpenBracket { pos: 0 });
    let r = BfScript::parse(&args("1", "0"), &literal("+++[->"));
    assert_eq!(r.unwrap_err(), BfError::UnmatchedOpenBracket { pos: 3 });
}

#[test]
fn nested_unmatched_bracket_reports_innermost() {
    let r = BfScript::parse(&args("1", "0"), &literal("+[-[>"));
    assert_eq!(r.unwrap_err(), BfError::UnmatchedOpenBracket { pos: 3 });
}

#[test]
fn trailing_close_bracket_ends_parse_without_error() {
    let script = BfScript::parse(&args("1", "0"), &literal("++]+")).unwrap();
    assert_eq!(script.script, vec![BfOperator::Add, BfOperator::Add]);
}

#[test]
fn literal_and_raw_streams_parse_identically() {
    let src = "+ comment +[>x,<-].]";
    let a = BfScript::parse(&args("3", "1"), &literal(src)).unwrap();
    let b = BfScript::parse(&args("3", "1"), &ScriptSource::RawOps(String::from(src))).unwrap();
    assert_eq!(a, b);
}

#[test]
fn tokenizer_drops_comments_and_keeps_positions() {
    let toks = tokenize_bf_string("a+b-c]");
    assert_eq!(toks, vec![('+', 1), ('-', 3), (']', 5)]);
    assert_eq!(tokenize_bf_string(""), vec![]);
    assert_eq!(tokenize_bf_string("no ops here"), vec![]);
}

#[test]
fn parser_builds_nested_loops() {
    let toks = tokenize_bf_string("+[-[.]]");
    let ops = parse_all(&toks).unwrap();
    assert_eq!(
        ops,
        vec![
            BfOperator::Add,
            BfOperator::Loop(vec![
                BfOperator::Sub,
                BfOperator::Loop(vec![BfOperator::Output]),
            ]),
        ]
    );
}

#[test]
fn config_arity_is_strict() {
    let short = vec![MacroArg::TypeArg, MacroArg::IntArg(String::from("1"))];
    let r = BfScript::parse(&short, &literal("+"));
    assert_eq!(r.unwrap_err(), BfError::WrongArgCount { found: 2 });
}

#[test]
fn config_slot_kinds_are_checked() {
    let bad1 = vec![
        MacroArg::OtherArg,
        MacroArg::IntArg(String::from("1")),
        MacroArg::IntArg(String::from("0")),
    ];
    assert_eq!(
        BfScript::parse(&bad1, &literal("+")).unwrap_err(),
        BfError::ExpectedType
    );
    let bad2 = vec![
        MacroArg::TypeArg,
        MacroArg::ConstOther,
        MacroArg::IntArg(String::from("0")),
    ];
    assert_eq!(
        BfScript::parse(&bad2, &literal("+")).unwrap_err(),
        BfError::ExpectedConstInt { slot: 2 }
    );
    let bad3 = vec![
        MacroArg::TypeArg,
        MacroArg::IntArg(String::from("1")),
        MacroArg::OtherArg,
    ];
    assert_eq!(
        BfScript::parse(&bad3, &literal("+")).unwrap_err(),
        BfError::ExpectedConstInt { slot: 3 }
    );
}

#[test]
fn config_rejects_oversized_and_malformed_integers() {
    let huge = args("999999999999999999999999999999", "0");
    assert_eq!(
        BfScript::parse(&huge, &literal("+")).unwrap_err(),
        BfError::BadIntLiteral { slot: 2 }
    );
    let empty = args("1", "");
    assert_eq!(
        BfScript::parse(&empty, &literal("+")).unwrap_err(),
        BfError::BadIntLiteral { slot: 3 }
    );
}

#[test]
fn pointer_underflow_is_a_fatal_fault() {
    let r = run("1", "0", "<");
    assert_eq!(r.unwrap_err(), VmHalt::Fault(VmFault::PointerUnderflow));
}

#[test]
fn negative_offset_reserves_low_cells() {
    // the pointer starts at the offset, so one step left is still on the tape
    assert_eq!(run("1", "1", "<+.").unwrap(), "\u{1}".to_string());
    // but one more step left underflows
    assert_eq!(
        run("1", "1", "<<").unwrap_err(),
        VmHalt::Fault(VmFault::PointerUnderflow)
    );
}

#[test]
fn interpreter_grows_tape_past_configured_length() {
    // the pointer passes the one-cell tape; the interpreter grows it and
    // completes, where the generated code's fixed tape would fault
    assert_eq!(run("1", "0", ">+.").unwrap(), "\u{1}".to_string());
}

#[test]
fn reads_past_tape_end_are_zero_before_growth() {
    assert_eq!(run("1", "0", ">.").unwrap(), "\u{0}".to_string());
}

#[test]
fn cells_wrap_at_eight_bits() {
    assert_eq!(run("1", "0", "-.").unwrap(), "\u{ff}".to_string());
    assert_eq!(run("1", "0", "-+.").unwrap(), "\u{0}".to_string());
}

#[test]
fn input_is_inert_in_the_interpreter() {
    assert_eq!(run("1", "0", "+,.").unwrap(), "\u{1}".to_string());
}

#[test]
fn non_terminating_loop_exhausts_fuel() {
    let script = BfScript::parse(&args("1", "0"), &literal("+[]")).unwrap();
    let mut vm = BfVM::new(script);
    assert_eq!(vm.execute(10).unwrap_err(), VmHalt::OutOfFuel);
}

#[test]
fn zero_cell_skips_loop_entirely() {
    assert_eq!(run("2", "0", "[+.]").unwrap(), "".to_string());
}

#[test]
fn interpreter_output_matches_generated_statements_by_hand() {
    // the statements the code generator emits for "+++." with one cell and
    // no offset, written out and run here
    let generated = {
        let mut mem: Vec<u8> = vec![0; 1];
        let mut pointer: usize = 0;
        let mut result = String::new();
        for _ in 0..3 {
            let cell = &mut mem[pointer];
            *cell = cell.wrapping_add(1);
        }
        result.push(mem[pointer] as char);
        result
    };
    assert_eq!(run("1", "0", "+++.").unwrap(), generated);
}

#[test]
fn generated_code_text_is_exact() {
    let script = BfScript::parse(&args("1", "0"), &literal("+.")).unwrap();
    let mut code = String::new();
    script.to_tokens(&mut code);
    let expected = "{\n\
        use std::io::Read;\n\
        let mut mem: ::std::vec::Vec<u8> = ::std::vec![0; 1];\n\
        let mut pointer: usize = 0;\n\
        let mut result = ::std::string::String::new();\n\
        let cell = &mut mem[pointer];\n\
        *cell = cell.wrapping_add(1);\n\
        result.push(mem[pointer] as char);\n\
        result\n\
        }\n";
    assert_eq!(code, expected);
}

#[test]
fn generated_loop_code_nests_and_sizes_the_tape() {
    let script = BfScript::parse(&args("30", "12"), &literal("[>]")).unwrap();
    let mut code = String::new();
    script.to_tokens(&mut code);
    assert!(code.contains("::std::vec![0; 42]"));
    assert!(code.contains("let mut pointer: usize = 12;"));
    assert!(code.contains("while mem[pointer] != 0 {\npointer += 1;\n}\n"));
}

#[test]
fn generated_input_code_reads_stdin() {
    let script = BfScript::parse(&args("1", "0"), &literal(",")).unwrap();
    let mut code = String::new();
    script.to_tokens(&mut code);
    assert!(code.contains("std::io::stdin().read_exact(&mut buffer)"));
}

#[test]
fn decimal_rendering_is_exact() {
    assert_eq!(usize_to_string(0), "0".to_string());
    assert_eq!(usize_to_string(7), "7".to_string());
    assert_eq!(usize_to_string(12345), "12345".to_string());
    assert_eq!(usize_to_string(1000000), "1000000".to_string());
}
