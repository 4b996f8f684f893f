use debugger_sh::breakpoints::{
    count_lines, disassemble_functions, extract_breakpoints, find_breakpoint_fn, has_gap, injected,
    missed, parse_call_index, parse_i32_const, BreakpointHit, LineCount,
};
use debugger_sh::debug::dwarf::unit::Location;
use debugger_sh::types::CodeOffset;

fn strings(v: &[&str]) -> Vec<String> {
    v.iter().map(|s| s.to_string()).collect()
}

#[test]
fn calls_are_parsed() {
    assert_eq!(parse_call_index("Call { function_index: 5 }"), Some(5));
    assert_eq!(parse_call_index("Call { function_index: 12}"), Some(12));
    assert_eq!(parse_call_index("ReturnCall { function_index: 7 }"), Some(7));
    assert_eq!(parse_call_index("Call { function_index: +7 }"), Some(7));
    assert_eq!(parse_call_index("Call { function_index: -7 }"), None);
    assert_eq!(parse_call_index("Call { function_index: 4294967295 }"), Some(u32::MAX));
    assert_eq!(parse_call_index("Call { function_index: 4294967296 }"), None);
    assert_eq!(parse_call_index("Call { function_index: 99999999999999999999999 }"), None);
    assert_eq!(parse_call_index("Call { function_index: x }"), None);
    assert_eq!(parse_call_index("Nop"), None);
}

#[test]
fn constants_are_parsed() {
    assert_eq!(parse_i32_const("I32Const { value: 5 }"), Some(5));
    assert_eq!(parse_i32_const("I32Const { value: -5 }"), Some(-5));
    assert_eq!(parse_i32_const("I32Const { value: -2147483648 }"), Some(i32::MIN));
    assert_eq!(parse_i32_const("I32Const { value: 2147483648 }"), None);
    assert_eq!(parse_i32_const("I32Const { value: \t8}}}"), Some(8));
    assert_eq!(parse_i32_const("I64Const { value: 5 }"), None);
}

fn code() -> Vec<Vec<String>> {
    vec![
        strings(&[
            "I32Const { value: 1 }",
            "Call { function_index: 3 }",
            "Nop",
            "Call { function_index: 4 }",
            "I32Const { value: 2 }",
            "Call { function_index: 3 }",
        ]),
        strings(&["I32Const { value: 9 }", "Call { function_index: 4 }", "End"]),
    ]
}

#[test]
fn the_breakpoint_function_is_called_most() {
    assert_eq!(find_breakpoint_fn(&code()), Some(3));
    assert_eq!(find_breakpoint_fn(&vec![]), None);
    assert_eq!(find_breakpoint_fn(&vec![strings(&["Nop", "Call { function_index: 1 }"])]), None);
}

#[test]
fn breakpoints_are_extracted() {
    let hits = extract_breakpoints(&code()[0], Some(3));
    assert_eq!(hits, vec![BreakpointHit { index: 1 }, BreakpointHit { index: 2 }]);
    assert_eq!(extract_breakpoints(&code()[0], None), vec![]);
    assert_eq!(extract_breakpoints(&code()[1], Some(4)), vec![BreakpointHit { index: 9 }]);
    assert_eq!(extract_breakpoints(&strings(&["I32Const { value: 9 }"]), Some(4)), vec![]);
}

#[test]
fn unchanged_functions_have_no_breakpoints() {
    let instrumented = code();
    let plain = vec![strings(&["Nop"]), strings(&["a", "b", "c"])];
    assert_eq!(
        injected(&plain, &instrumented, Some(3)),
        vec![BreakpointHit { index: 1 }, BreakpointHit { index: 2 }]
    );
    assert_eq!(
        injected(&vec![], &instrumented, Some(4)),
        vec![BreakpointHit { index: 9 }]
    );
}

fn at(file_index: usize, line: usize) -> Location {
    Location { address: CodeOffset(0), file_index, line, column: 0 }
}

#[test]
fn lines_are_counted_in_order() {
    let locations = vec![at(1, 5), at(0, 9), at(0, 2), at(0, 9)];
    let hits: Vec<BreakpointHit> =
        [1, 2, 3, 4, 0, 77, -3].iter().map(|&index| BreakpointHit { index }).collect();
    assert_eq!(
        count_lines(&locations, &hits),
        vec![
            LineCount { file: 0, line: 2, count: 1 },
            LineCount { file: 0, line: 9, count: 2 },
            LineCount { file: 1, line: 5, count: 1 },
        ]
    );
    assert!(has_gap(&LineCount { file: 0, line: 2, count: 1 }, &LineCount { file: 0, line: 9, count: 2 }));
    assert!(!has_gap(&LineCount { file: 0, line: 2, count: 1 }, &LineCount { file: 0, line: 3, count: 2 }));
    assert!(!has_gap(&LineCount { file: 0, line: 2, count: 1 }, &LineCount { file: 1, line: 9, count: 2 }));
}

#[test]
fn missed_locations_are_listed() {
    let locations = vec![at(0, 1), at(0, 2), at(0, 3)];
    assert_eq!(missed(&locations, &vec![BreakpointHit { index: 2 }]), vec![0, 2]);
    assert_eq!(missed(&vec![], &vec![BreakpointHit { index: 2 }]), vec![]);
}

#[test]
fn functions_are_shown_as_texts() {
    let mut module = wasm_encoder::Module::new();
    let mut types = wasm_encoder::TypeSection::new();
    types.ty().function([], []);
    module.section(&types);
    let mut functions = wasm_encoder::FunctionSection::new();
    functions.function(0);
    functions.function(0);
    module.section(&functions);
    let mut codes = wasm_encoder::CodeSection::new();
    for _ in 0..2 {
        let mut f = wasm_encoder::Function::new([]);
        f.instruction(&wasm_encoder::Instruction::I32Const(4));
        f.instruction(&wasm_encoder::Instruction::Call(1));
        f.instruction(&wasm_encoder::Instruction::End);
        codes.function(&f);
    }
    module.section(&codes);
    let wasm = module.finish();
    let funcs = disassemble_functions(&wasm);
    assert_eq!(funcs.len(), 2);
    assert_eq!(
        funcs[0],
        strings(&["I32Const { value: 4 }", "Call { function_index: 1 }", "End"])
    );
    assert_eq!(find_breakpoint_fn(&funcs), Some(1));
    assert_eq!(extract_breakpoints(&funcs[1], Some(1)), vec![BreakpointHit { index: 4 }]);
    assert_eq!(disassemble_functions(&vec![1, 2, 3]), Vec::<Vec<String>>::new());
}
