use fucker::ast::AST;
use fucker::jit_target::int_ceil;
use fucker::jit_target::JITPromise;
use fucker::jit_target::JITTarget;

const PRINT_ADDR: u64 = 0x1111_2222_3333_4444;
const READ_ADDR: u64 = 0x5555_6666_7777_8888;

fn compile(src: &str) -> JITTarget {
    let ast = AST::parse(src).unwrap();
    JITTarget::new(&ast.data, PRINT_ADDR, READ_ADDR).unwrap()
}

/// A source whose single loop body holds 24 nodes, which is past the
/// defer threshold of 22.
fn large_loop_source() -> String {
    let mut src = String::from("+[");
    for _ in 0..12 {
        src.push('+');
        src.push('>');
    }
    src.push(']');
    src
}

#[test]
fn emitted_bytes_for_single_increment() {
    let t = compile("+");
    let expected: Vec<u8> = vec![
        0x41, 0x54, // push r12
        0x41, 0x55, // push r13
        0x48, 0x83, 0xec, 0x08, // sub rsp, 8
        0x49, 0x89, 0xfa, // mov r10, rdi
        0x49, 0x89, 0xf4, // mov r12, rsi
        0x49, 0x89, 0xd5, // mov r13, rdx
        0x41, 0x80, 0x02, 0x01, // add byte [r10], 1
        0x4c, 0x89, 0xd0, // mov rax, r10
        0x48, 0x83, 0xc4, 0x08, // add rsp, 8
        0x41, 0x5d, // pop r13
        0x41, 0x5c, // pop r12
        0xc3, // ret
    ];
    assert_eq!(t.bytes, expected);
    assert_eq!(t.loops.len(), 0);
}

#[test]
fn emitted_bytes_for_inline_loop() {
    // `+[-]`: the loop is small, so it is wrapped in the head test, the
    // body bytes and the back jump, all inline.
    let t = compile("+[-]");
    let expected_core: Vec<u8> = vec![
        0x41, 0x80, 0x02, 0x01, // add byte [r10], 1
        0x41, 0x80, 0x3a, 0x00, // cmp byte [r10], 0
        0x0f, 0x84, 0x09, 0x00, 0x00, 0x00, // je +9 (past body and jump)
        0x41, 0x80, 0x2a, 0x01, // sub byte [r10], 1
        0xe9, 0xed, 0xff, 0xff, 0xff, // jmp -19 (back to the head)
    ];
    // Strip the 17-byte prologue and the 12-byte epilogue.
    let core = &t.bytes[17..t.bytes.len() - 12];
    assert_eq!(core, expected_core.as_slice());
    assert_eq!(t.loops.len(), 0);
}

#[test]
fn small_loop_is_not_deferred() {
    // 22 nodes exactly: still inlined.
    let mut src = String::from("+[");
    for _ in 0..11 {
        src.push('+');
        src.push('>');
    }
    src.push(']');
    let t = compile(&src);
    assert_eq!(t.loops.len(), 0);
}

#[test]
fn large_loop_deferral() {
    // Before any run the big loop's promise is deferred; compiling the
    // promise turns it into a compiled fragment.
    let mut t = compile(&large_loop_source());
    assert_eq!(t.loops.len(), 1);
    assert!(matches!(t.loops[0], JITPromise::Deferred(_)));

    t.compile_promise(0).unwrap();
    assert!(matches!(t.loops[0], JITPromise::Compiled(_)));
}

#[test]
fn compiled_promise_stays_compiled() {
    let mut t = compile(&large_loop_source());
    t.compile_promise(0).unwrap();
    let bytes_first = match &t.loops[0] {
        JITPromise::Compiled(f) => f.bytes.clone(),
        JITPromise::Deferred(_) => panic!("promise still deferred"),
    };
    // Compiling again must leave the fragment exactly as it is.
    t.compile_promise(0).unwrap();
    let bytes_second = match &t.loops[0] {
        JITPromise::Compiled(f) => f.bytes.clone(),
        JITPromise::Deferred(_) => panic!("promise no longer compiled"),
    };
    assert_eq!(bytes_first, bytes_second);
}

#[test]
fn deferred_compilation_matches_compile_at_start() {
    // Two targets built from the same source: compiling the deferred
    // promise in either yields byte-identical fragments, whenever it
    // happens.
    let mut t1 = compile(&large_loop_source());
    let mut t2 = compile(&large_loop_source());
    assert_eq!(t1.bytes, t2.bytes);
    t1.compile_promise(0).unwrap();
    t2.compile_promise(0).unwrap();
    let f1 = match &t1.loops[0] {
        JITPromise::Compiled(f) => &f.bytes,
        JITPromise::Deferred(_) => panic!("promise still deferred"),
    };
    let f2 = match &t2.loops[0] {
        JITPromise::Compiled(f) => &f.bytes,
        JITPromise::Deferred(_) => panic!("promise still deferred"),
    };
    assert_eq!(f1, f2);
}

#[test]
fn trampoline_embeds_promise_id() {
    let t = compile(&large_loop_source());
    // The jit-loop trampoline for promise 0: head test, taken branch over
    // the call, the callback call with the id as a 64-bit immediate, and
    // the back jump.
    let expected_trampoline: Vec<u8> = vec![
        0x41, 0x80, 0x3a, 0x00, // cmp byte [r10], 0
        0x0f, 0x84, 0x1d, 0x00, 0x00, 0x00, // je +29
        0x4c, 0x89, 0xe7, // mov rdi, r12
        0x48, 0xbe, 0x00, 0x00, 0x00, 0x00, 0x00, 0x00, 0x00, 0x00, // mov rsi, 0
        0x4c, 0x89, 0xd2, // mov rdx, r10
        0x4c, 0x89, 0xe8, // mov rax, r13
        0xff, 0xd0, // call rax
        0x49, 0x89, 0xc2, // mov r10, rax
        0xe9, 0xd9, 0xff, 0xff, 0xff, // jmp -39
    ];
    // The trampoline follows the prologue (17 bytes) and `add byte [r10], 1`
    // (4 bytes).
    let core = &t.bytes[21..21 + expected_trampoline.len()];
    assert_eq!(core, expected_trampoline.as_slice());
}

#[test]
fn print_embeds_routine_address() {
    let t = compile(".");
    // movzx edi, byte [r10]; mov rax, PRINT_ADDR; call rax — with the
    // address in little-endian order.
    let core = &t.bytes[17..t.bytes.len() - 12];
    let expected: Vec<u8> = vec![
        0x41, 0x52, // push r10
        0x41, 0x52, // push r10
        0x41, 0x0f, 0xb6, 0x3a, // movzx edi, byte [r10]
        0x48, 0xb8, 0x44, 0x44, 0x33, 0x33, 0x22, 0x22, 0x11, 0x11, // mov rax, addr
        0xff, 0xd0, // call rax
        0x41, 0x5a, // pop r10
        0x41, 0x5a, // pop r10
    ];
    assert_eq!(core, expected.as_slice());
}

#[test]
fn int_ceil_rounds_up_to_next_full_step() {
    assert_eq!(int_ceil(0, 4096), 4096);
    assert_eq!(int_ceil(1, 4096), 4096);
    assert_eq!(int_ceil(4095, 4096), 4096);
    // A value already on a boundary is still taken one full step up.
    assert_eq!(int_ceil(4096, 4096), 8192);
    assert_eq!(int_ceil(4097, 4096), 8192);
}
