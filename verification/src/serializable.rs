use vstd::prelude::*;

verus! {

/// The `width` low-order bytes of `v`, least significant byte first.
pub open spec fn le_bytes(v: nat, width: nat) -> Seq<u8>
    decreases width,
{
    if width == 0 {
        Seq::empty()
    } else {
        seq![(v % 256) as u8] + le_bytes(v / 256, (width - 1) as nat)
    }
}

/// The unsigned number whose 16 bits are the two's complement form of `v`.
pub open spec fn wrap_i16(v: i16) -> nat {
    if v < 0 {
        (v + 0x1_0000) as nat
    } else {
        v as nat
    }
}

/// The unsigned number whose 32 bits are the two's complement form of `v`.
pub open spec fn wrap_i32(v: i32) -> nat {
    if v < 0 {
        (v + 0x1_0000_0000) as nat
    } else {
        v as nat
    }
}

/// The unsigned number whose 64 bits are the two's complement form of `v`.
pub open spec fn wrap_i64(v: i64) -> nat {
    if v < 0 {
        (v + 0x1_0000_0000_0000_0000) as nat
    } else {
        v as nat
    }
}

/// The number of bytes that a `usize` takes on this machine.
pub open spec fn usize_width() -> nat {
    vstd::layout::size_of::<usize>()
}

pub proof fn lemma_le_bytes_len(v: nat, width: nat)
    ensures
        le_bytes(v, width).len() == width,
    decreases width,
{
    if width > 0 {
        lemma_le_bytes_len(v / 256, (width - 1) as nat);
    }
}

/// Appends the `width` low-order bytes of `v`, least significant first.
pub fn write_le(out: &mut Vec<u8>, v: u64, width: usize)
    ensures
        final(out)@ == old(out)@ + le_bytes(v as nat, width as nat),
{
    let mut rest: u64 = v;
    let mut i: usize = 0;
    assert(out@ + le_bytes(rest as nat, (width - i) as nat) =~= old(out)@ + le_bytes(
        v as nat,
        width as nat,
    ));
    while i < width
        invariant
            i <= width,
            out@ + le_bytes(rest as nat, (width - i) as nat) == old(out)@ + le_bytes(
                v as nat,
                width as nat,
            ),
        decreases width - i,
    {
        let ghost before = out@;
        let low: u8 = (rest % 256) as u8;
        out.push(low);
        assert(out@ + le_bytes((rest / 256) as nat, (width - i - 1) as nat) =~= before + le_bytes(
            rest as nat,
            (width - i) as nat,
        ));
        rest = rest / 256;
        i += 1;
    }
    assert(out@ + le_bytes(rest as nat, 0) =~= out@);
}

pub fn write_u8(out: &mut Vec<u8>, v: u8)
    ensures
        final(out)@ == old(out)@.push(v),
{
    out.push(v);
}

pub fn write_u16(out: &mut Vec<u8>, v: u16)
    ensures
        final(out)@ == old(out)@ + le_bytes(v as nat, 2),
{
    write_le(out, v as u64, 2);
}

pub fn write_u32(out: &mut Vec<u8>, v: u32)
    ensures
        final(out)@ == old(out)@ + le_bytes(v as nat, 4),
{
    write_le(out, v as u64, 4);
}

pub fn write_u64(out: &mut Vec<u8>, v: u64)
    ensures
        final(out)@ == old(out)@ + le_bytes(v as nat, 8),
{
    write_le(out, v, 8);
}

pub fn write_usize(out: &mut Vec<u8>, v: usize)
    ensures
        final(out)@ == old(out)@ + le_bytes(v as nat, usize_width()),
{
    write_le(out, v as u64, core::mem::size_of::<usize>());
}

pub fn write_i16(out: &mut Vec<u8>, v: i16)
    ensures
        final(out)@ == old(out)@ + le_bytes(wrap_i16(v), 2),
{
    let bits: u16 = if v >= 0 {
        v as u16
    } else {
        (v - i16::MIN) as u16 + 0x8000
    };
    write_le(out, bits as u64, 2);
}

pub fn write_i32(out: &mut Vec<u8>, v: i32)
    ensures
        final(out)@ == old(out)@ + le_bytes(wrap_i32(v), 4),
{
    let bits: u32 = if v >= 0 {
        v as u32
    } else {
        (v - i32::MIN) as u32 + 0x8000_0000
    };
    write_le(out, bits as u64, 4);
}

pub fn write_i64(out: &mut Vec<u8>, v: i64)
    ensures
        final(out)@ == old(out)@ + le_bytes(wrap_i64(v), 8),
{
    let bits: u64 = if v >= 0 {
        v as u64
    } else {
        (v - i64::MIN) as u64 + 0x8000_0000_0000_0000
    };
    write_le(out, bits, 8);
}

/// Appends the bytes of `data` as they are.
pub fn write_bytes(out: &mut Vec<u8>, data: &[u8])
    ensures
        final(out)@ == old(out)@ + data@,
{
    let mut i: usize = 0;
    assert(out@ =~= old(out)@ + data@.subrange(0, 0));
    while i < data.len()
        invariant
            i <= data.len(),
            out@ == old(out)@ + data@.subrange(0, i as int),
        decreases data.len() - i,
    {
        out.push(data[i]);
        i += 1;
        assert(out@ =~= old(out)@ + data@.subrange(0, i as int));
    }
    assert(data@.subrange(0, i as int) =~= data@);
}

} // verus!
