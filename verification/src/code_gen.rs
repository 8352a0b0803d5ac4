//! The code emitter: byte-appending primitives for x86-64.
//!
//! Register discipline for all generated code (System V AMD64):
//! `r10` holds the tape pointer, `r12` the self-pointer handed back to the
//! host callback, `r13` the callback's address; all three are preserved
//! across outbound calls (`r12`/`r13` are callee-saved, `r10` is saved and
//! restored around each call).  Each primitive appends a fixed opcode
//! template with its operand patched in, and its contract gives the emitted
//! bytes exactly.

use vstd::prelude::*;

verus! {

/// The eight bytes of `v`, least significant first.
#[verifier::opaque]
pub open spec fn le8(v: u64) -> Seq<u8> {
    seq![
        (v % 256) as u8,
        ((v / 0x100) % 256) as u8,
        ((v / 0x10000) % 256) as u8,
        ((v / 0x1000000) % 256) as u8,
        ((v / 0x100000000) % 256) as u8,
        ((v / 0x10000000000) % 256) as u8,
        ((v / 0x1000000000000) % 256) as u8,
        ((v / 0x100000000000000) % 256) as u8,
    ]
}

/// The four bytes of `v % 2^32`, least significant first.
#[verifier::opaque]
pub open spec fn le4(v: u64) -> Seq<u8> {
    seq![
        (v % 256) as u8,
        ((v / 0x100) % 256) as u8,
        ((v / 0x10000) % 256) as u8,
        ((v / 0x1000000) % 256) as u8,
    ]
}

/// A jump displacement as the four bytes of its two's complement.
#[verifier::opaque]
pub open spec fn rel32(d: int) -> Seq<u8> {
    le4((d % 0x100000000) as u64)
}

/// An eight-byte immediate is eight bytes long.
pub broadcast proof fn lemma_le8_len(v: u64)
    ensures
        (#[trigger] le8(v)).len() == 8,
{
    reveal(le8);
}

/// A four-byte immediate is four bytes long.
pub broadcast proof fn lemma_le4_len(v: u64)
    ensures
        (#[trigger] le4(v)).len() == 4,
{
    reveal(le4);
}

/// A jump displacement is four bytes long.
pub broadcast proof fn lemma_rel32_len(d: int)
    ensures
        (#[trigger] rel32(d)).len() == 4,
{
    reveal(rel32);
    reveal(le4);
}

/// Append the eight bytes of `v`, least significant first.
fn push_le8(bytes: &mut Vec<u8>, v: u64)
    ensures
        final(bytes)@ == old(bytes)@ + le8(v),
{
    let ghost pre = bytes@;
    bytes.push((v % 256) as u8);
    bytes.push(((v / 0x100) % 256) as u8);
    bytes.push(((v / 0x10000) % 256) as u8);
    bytes.push(((v / 0x1000000) % 256) as u8);
    bytes.push(((v / 0x100000000) % 256) as u8);
    bytes.push(((v / 0x10000000000) % 256) as u8);
    bytes.push(((v / 0x1000000000000) % 256) as u8);
    bytes.push(((v / 0x100000000000000) % 256) as u8);
    proof {
        reveal(le8);
        assert(bytes@ =~= pre + le8(v));
    }
}

/// Append the four bytes of `v % 2^32`, least significant first.
fn push_le4(bytes: &mut Vec<u8>, v: u64)
    ensures
        final(bytes)@ == old(bytes)@ + le4(v),
{
    let ghost pre = bytes@;
    bytes.push((v % 256) as u8);
    bytes.push(((v / 0x100) % 256) as u8);
    bytes.push(((v / 0x10000) % 256) as u8);
    bytes.push(((v / 0x1000000) % 256) as u8);
    proof {
        reveal(le4);
        assert(bytes@ =~= pre + le4(v));
    }
}

/// `add byte [r10], n`: add `n` to the cell at the tape pointer.
pub open spec fn incr_bytes(n: u8) -> Seq<u8> {
    seq![0x41u8, 0x80u8, 0x02u8, n]
}

/// `sub byte [r10], n`: subtract `n` from the cell at the tape pointer.
pub open spec fn decr_bytes(n: u8) -> Seq<u8> {
    seq![0x41u8, 0x80u8, 0x2au8, n]
}

/// `mov rax, k; add r10, rax`: advance the tape pointer by `k` cells.
pub open spec fn next_bytes(k: usize) -> Seq<u8> {
    seq![0x48u8, 0xb8u8] + le8(k as u64) + seq![0x49u8, 0x01u8, 0xc2u8]
}

/// `mov rax, k; sub r10, rax`: retreat the tape pointer by `k` cells.
pub open spec fn prev_bytes(k: usize) -> Seq<u8> {
    seq![0x48u8, 0xb8u8] + le8(k as u64) + seq![0x49u8, 0x29u8, 0xc2u8]
}

/// Save `r10` twice (keeping the stack 16-byte aligned for the call), move
/// the current cell into `edi`, call the one-byte print routine at
/// `fn_addr`, restore `r10`.
pub open spec fn print_bytes(fn_addr: u64) -> Seq<u8> {
    seq![
        0x41u8, 0x52u8,  // push r10
        0x41u8, 0x52u8,  // push r10
        0x41u8, 0x0fu8, 0xb6u8, 0x3au8,  // movzx edi, byte [r10]
        0x48u8, 0xb8u8,  // mov rax, fn_addr
    ] + le8(fn_addr) + seq![
        0xffu8, 0xd0u8,  // call rax
        0x41u8, 0x5au8,  // pop r10
        0x41u8, 0x5au8,  // pop r10
    ]
}

/// Save `r10` twice, call the one-byte read routine at `fn_addr`, restore
/// `r10`, store the low byte of the return value into the current cell.
pub open spec fn read_bytes(fn_addr: u64) -> Seq<u8> {
    seq![
        0x41u8, 0x52u8,  // push r10
        0x41u8, 0x52u8,  // push r10
        0x48u8, 0xb8u8,  // mov rax, fn_addr
    ] + le8(fn_addr) + seq![
        0xffu8, 0xd0u8,  // call rax
        0x41u8, 0x5au8,  // pop r10
        0x41u8, 0x5au8,  // pop r10
        0x41u8, 0x88u8, 0x02u8,  // mov byte [r10], al
    ]
}

/// A while-nonzero wrapper around already-emitted body bytes: a head test
/// that jumps past the body when the cell at the tape pointer is zero, the
/// body, and a jump back to the head.
pub open spec fn aot_loop_bytes(body: Seq<u8>) -> Seq<u8> {
    seq![0x41u8, 0x80u8, 0x3au8, 0x00u8]  // cmp byte [r10], 0
     + seq![0x0fu8, 0x84u8] + rel32(body.len() + 5int)  // je past body and jump
     + body + seq![0xe9u8] + rel32(-(body.len() as int + 15))  // jmp back to the head
}

/// While the cell at the tape pointer is non-zero, call the host callback
/// with the self-pointer (`r12`), the promise id and the tape pointer, and
/// load the returned tape pointer back into `r10`.
pub open spec fn jit_loop_bytes(promise_id: usize) -> Seq<u8> {
    seq![0x41u8, 0x80u8, 0x3au8, 0x00u8]  // cmp byte [r10], 0
     + seq![0x0fu8, 0x84u8] + rel32(29)  // je past the call and the jump
     + seq![0x4cu8, 0x89u8, 0xe7u8]  // mov rdi, r12
     + seq![0x48u8, 0xbeu8] + le8(promise_id as u64)  // mov rsi, promise_id
     + seq![0x4cu8, 0x89u8, 0xd2u8]  // mov rdx, r10
     + seq![0x4cu8, 0x89u8, 0xe8u8]  // mov rax, r13
     + seq![0xffu8, 0xd0u8]  // call rax
     + seq![0x49u8, 0x89u8, 0xc2u8]  // mov r10, rax
     + seq![0xe9u8] + rel32(-39)  // jmp back to the head
}

/// Prologue and epilogue around a complete body.  The prologue takes the
/// initial tape pointer in `rdi`, the self-pointer in `rsi` and the callback
/// address in `rdx`, parks them in `r10`, `r12` and `r13`, and keeps the
/// stack 16-byte aligned; the epilogue returns the tape pointer in `rax`.
pub open spec fn wrapper_bytes(body: Seq<u8>) -> Seq<u8> {
    seq![
        0x41u8, 0x54u8,  // push r12
        0x41u8, 0x55u8,  // push r13
        0x48u8, 0x83u8, 0xecu8, 0x08u8,  // sub rsp, 8
        0x49u8, 0x89u8, 0xfau8,  // mov r10, rdi
        0x49u8, 0x89u8, 0xf4u8,  // mov r12, rsi
        0x49u8, 0x89u8, 0xd5u8,  // mov r13, rdx
    ] + body + seq![
        0x4cu8, 0x89u8, 0xd0u8,  // mov rax, r10
        0x48u8, 0x83u8, 0xc4u8, 0x08u8,  // add rsp, 8
        0x41u8, 0x5du8,  // pop r13
        0x41u8, 0x5cu8,  // pop r12
        0xc3u8,  // ret
    ]
}

/// Largest body for which a loop's jump displacements fit in 32 bits.
pub const MAX_LOOP_BODY: usize = 0x7fffffe0;

/// Append the add-to-cell template.
pub fn incr(bytes: &mut Vec<u8>, n: u8)
    ensures
        final(bytes)@ == old(bytes)@ + incr_bytes(n),
{
    let ghost pre = bytes@;
    bytes.push(0x41);
    bytes.push(0x80);
    bytes.push(0x02);
    bytes.push(n);
    proof {
        assert(bytes@ =~= pre + incr_bytes(n));
    }
}

/// Append the subtract-from-cell template.
pub fn decr(bytes: &mut Vec<u8>, n: u8)
    ensures
        final(bytes)@ == old(bytes)@ + decr_bytes(n),
{
    let ghost pre = bytes@;
    bytes.push(0x41);
    bytes.push(0x80);
    bytes.push(0x2a);
    bytes.push(n);
    proof {
        assert(bytes@ =~= pre + decr_bytes(n));
    }
}

/// Append the advance-tape-pointer template.
pub fn next(bytes: &mut Vec<u8>, k: usize)
    ensures
        final(bytes)@ == old(bytes)@ + next_bytes(k),
{
    let ghost pre = bytes@;
    bytes.push(0x48);
    bytes.push(0xb8);
    push_le8(bytes, k as u64);
    bytes.push(0x49);
    bytes.push(0x01);
    bytes.push(0xc2);
    proof {
        assert(bytes@ =~= pre + next_bytes(k));
    }
}

/// Append the retreat-tape-pointer template.
pub fn prev(bytes: &mut Vec<u8>, k: usize)
    ensures
        final(bytes)@ == old(bytes)@ + prev_bytes(k),
{
    let ghost pre = bytes@;
    bytes.push(0x48);
    bytes.push(0xb8);
    push_le8(bytes, k as u64);
    bytes.push(0x49);
    bytes.push(0x29);
    bytes.push(0xc2);
    proof {
        assert(bytes@ =~= pre + prev_bytes(k));
    }
}

/// Append the call-print template for the routine at `fn_addr`.
pub fn print(bytes: &mut Vec<u8>, fn_addr: u64)
    ensures
        final(bytes)@ == old(bytes)@ + print_bytes(fn_addr),
{
    let ghost pre = bytes@;
    bytes.push(0x41);
    bytes.push(0x52);
    bytes.push(0x41);
    bytes.push(0x52);
    bytes.push(0x41);
    bytes.push(0x0f);
    bytes.push(0xb6);
    bytes.push(0x3a);
    bytes.push(0x48);
    bytes.push(0xb8);
    push_le8(bytes, fn_addr);
    bytes.push(0xff);
    bytes.push(0xd0);
    bytes.push(0x41);
    bytes.push(0x5a);
    bytes.push(0x41);
    bytes.push(0x5a);
    proof {
        assert(bytes@ =~= pre + print_bytes(fn_addr));
    }
}

/// Append the call-read template for the routine at `fn_addr`.
pub fn read(bytes: &mut Vec<u8>, fn_addr: u64)
    ensures
        final(bytes)@ == old(bytes)@ + read_bytes(fn_addr),
{
    let ghost pre = bytes@;
    bytes.push(0x41);
    bytes.push(0x52);
    bytes.push(0x41);
    bytes.push(0x52);
    bytes.push(0x48);
    bytes.push(0xb8);
    push_le8(bytes, fn_addr);
    bytes.push(0xff);
    bytes.push(0xd0);
    bytes.push(0x41);
    bytes.push(0x5a);
    bytes.push(0x41);
    bytes.push(0x5a);
    bytes.push(0x41);
    bytes.push(0x88);
    bytes.push(0x02);
    proof {
        assert(bytes@ =~= pre + read_bytes(fn_addr));
    }
}

/// Append a while-nonzero wrapper around `body`.
pub fn aot_loop(bytes: &mut Vec<u8>, body: Vec<u8>)
    requires
        body@.len() <= MAX_LOOP_BODY,
    ensures
        final(bytes)@ == old(bytes)@ + aot_loop_bytes(body@),
{
    let ghost pre = bytes@;
    bytes.push(0x41);
    bytes.push(0x80);
    bytes.push(0x3a);
    bytes.push(0x00);
    bytes.push(0x0f);
    bytes.push(0x84);
    let fwd: u64 = body.len() as u64 + 5;
    proof {
        reveal(rel32);
        assert(fwd as int == (body@.len() + 5int) % 0x100000000);
    }
    push_le4(bytes, fwd);
    let mut i: usize = 0;
    let ghost mid = bytes@;
    while i < body.len()
        invariant
            i <= body@.len(),
            bytes@ == mid + body@.subrange(0, i as int),
        decreases body@.len() - i,
    {
        let b = body[i];
        bytes.push(b);
        proof {
            assert(bytes@ =~= mid + body@.subrange(0, i + 1));
        }
        i = i + 1;
    }
    bytes.push(0xe9);
    let back: u64 = 0x100000000u64 - (body.len() as u64 + 15);
    proof {
        reveal(rel32);
        assert(back as int == (-(body@.len() as int + 15)) % 0x100000000);
        assert(body@.subrange(0, body@.len() as int) =~= body@);
    }
    push_le4(bytes, back);
    proof {
        reveal(rel32);
        assert(bytes@ =~= pre + aot_loop_bytes(body@));
    }
}

/// Append a call-the-host-each-iteration loop for promise `promise_id`.
pub fn jit_loop(bytes: &mut Vec<u8>, promise_id: usize)
    ensures
        final(bytes)@ == old(bytes)@ + jit_loop_bytes(promise_id),
{
    let ghost pre = bytes@;
    bytes.push(0x41);
    bytes.push(0x80);
    bytes.push(0x3a);
    bytes.push(0x00);
    bytes.push(0x0f);
    bytes.push(0x84);
    push_le4(bytes, 29);
    bytes.push(0x4c);
    bytes.push(0x89);
    bytes.push(0xe7);
    bytes.push(0x48);
    bytes.push(0xbe);
    push_le8(bytes, promise_id as u64);
    bytes.push(0x4c);
    bytes.push(0x89);
    bytes.push(0xd2);
    bytes.push(0x4c);
    bytes.push(0x89);
    bytes.push(0xe8);
    bytes.push(0xff);
    bytes.push(0xd0);
    bytes.push(0x49);
    bytes.push(0x89);
    bytes.push(0xc2);
    bytes.push(0xe9);
    let back: u64 = 0x100000000u64 - 39;
    proof {
        reveal(rel32);
        assert(back as int == (-39) % 0x100000000);
    }
    push_le4(bytes, back);
    proof {
        reveal(rel32);
        assert(bytes@ =~= pre + jit_loop_bytes(promise_id));
    }
}

/// Wrap already-emitted body bytes in the entry prologue and epilogue.
pub fn wrapper(bytes: &mut Vec<u8>, body: Vec<u8>)
    ensures
        final(bytes)@ == old(bytes)@ + wrapper_bytes(body@),
{
    let ghost pre = bytes@;
    bytes.push(0x41);
    bytes.push(0x54);
    bytes.push(0x41);
    bytes.push(0x55);
    bytes.push(0x48);
    bytes.push(0x83);
    bytes.push(0xec);
    bytes.push(0x08);
    bytes.push(0x49);
    bytes.push(0x89);
    bytes.push(0xfa);
    bytes.push(0x49);
    bytes.push(0x89);
    bytes.push(0xf4);
    bytes.push(0x49);
    bytes.push(0x89);
    bytes.push(0xd5);
    let mut i: usize = 0;
    let ghost mid = bytes@;
    while i < body.len()
        invariant
            i <= body@.len(),
            bytes@ == mid + body@.subrange(0, i as int),
        decreases body@.len() - i,
    {
        let b = body[i];
        bytes.push(b);
        proof {
            assert(bytes@ =~= mid + body@.subrange(0, i + 1));
        }
        i = i + 1;
    }
    bytes.push(0x4c);
    bytes.push(0x89);
    bytes.push(0xd0);
    bytes.push(0x48);
    bytes.push(0x83);
    bytes.push(0xc4);
    bytes.push(0x08);
    bytes.push(0x41);
    bytes.push(0x5d);
    bytes.push(0x41);
    bytes.push(0x5c);
    bytes.push(0xc3);
    proof {
        assert(body@.subrange(0, body@.len() as int) =~= body@);
        assert(bytes@ =~= pre + wrapper_bytes(body@));
    }
}

} // verus!
