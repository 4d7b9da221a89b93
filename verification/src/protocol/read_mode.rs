//! Read mode selection.
use vstd::prelude::*;
use crate::chip::features::Features;
use crate::programmer::features::SpiFeatures;
use crate::spi::io_mode::IoMode;
use crate::spi::opcodes;

verus! {

/// The read commands in order of preference, each with whether both sides
/// can use it: native 4-byte-address quad I/O, quad output, dual I/O, dual
/// output and plain read (only when native 4-byte opcodes are tried and the
/// programmer sends 4-byte addresses), then quad I/O, quad output, dual I/O
/// and dual output. Entries are (usable, mode, opcode, native 4-byte).
pub open spec fn read_mode_candidates(
    master_features: SpiFeatures,
    chip_features: Features,
    try_native_4byte: bool,
) -> Seq<(bool, IoMode, u8, bool)> {
    let nat4 = try_native_4byte && master_features.has(SpiFeatures::FOUR_BYTE_ADDR);
    let quad = chip_features.has(Features::QUAD_IO);
    let dual = chip_features.has(Features::DUAL_IO);
    seq![
        (nat4 && chip_features.has(Features::FOUR_BYTE_QUAD_IO_READ) && master_features.has(SpiFeatures::QUAD_IO),
            IoMode::QuadIo, opcodes::QIOR_4B, true),
        (nat4 && chip_features.has(Features::FOUR_BYTE_QUAD_OUT_READ) && master_features.has(SpiFeatures::QUAD_IN),
            IoMode::QuadOut, opcodes::QOR_4B, true),
        (nat4 && chip_features.has(Features::FOUR_BYTE_DUAL_IO_READ) && master_features.has(SpiFeatures::DUAL_IO),
            IoMode::DualIo, opcodes::DIOR_4B, true),
        (nat4 && chip_features.has(Features::FOUR_BYTE_DUAL_OUT_READ) && master_features.has(SpiFeatures::DUAL_IN),
            IoMode::DualOut, opcodes::DOR_4B, true),
        (nat4 && chip_features.has(Features::FOUR_BYTE_READ), IoMode::Single, opcodes::READ_4B, true),
        (quad && master_features.has(SpiFeatures::QUAD_IO), IoMode::QuadIo, opcodes::QIOR, false),
        (quad && master_features.has(SpiFeatures::QUAD_IN), IoMode::QuadOut, opcodes::QOR, false),
        (dual && master_features.has(SpiFeatures::DUAL_IO), IoMode::DualIo, opcodes::DIOR, false),
        (dual && master_features.has(SpiFeatures::DUAL_IN), IoMode::DualOut, opcodes::DOR, false),
    ]
}

/// `r` is the first usable candidate that `opcode_supported` accepted,
/// every usable candidate before it having been refused; or plain read
/// when every usable candidate was refused.
pub open spec fn read_mode_selected<F: Fn(u8) -> bool>(
    c: Seq<(bool, IoMode, u8, bool)>,
    opcode_supported: F,
    r: (IoMode, u8, bool),
) -> bool {
    ||| exists|k: int| 0 <= k < c.len() && #[trigger] c[k].0 && r == (c[k].1, c[k].2, c[k].3)
        && opcode_supported.ensures((c[k].2,), true)
        && forall|j: int| 0 <= j < k && #[trigger] c[j].0 ==> opcode_supported.ensures((c[j].2,), false)
    ||| r == (IoMode::Single, opcodes::READ, false)
        && forall|j: int| 0 <= j < c.len() && #[trigger] c[j].0 ==> opcode_supported.ensures((c[j].2,), false)
}

/// Select the best available read mode based on programmer and chip
/// capabilities: the first usable candidate of `read_mode_candidates` whose
/// opcode `opcode_supported` accepts, else plain single read (0x03).
/// Returns the I/O mode, the opcode and whether it is a native 4-byte
/// opcode. `opcode_supported` is asked only about usable candidates, in
/// order, until one is accepted.
pub fn select_read_mode(
    master_features: SpiFeatures,
    chip_features: Features,
    try_native_4byte: bool,
    opcode_supported: impl Fn(u8) -> bool,
) -> (r: (IoMode, u8, bool))
    requires
        forall|op: u8| opcode_supported.requires((op,)),
    ensures
        read_mode_selected(read_mode_candidates(master_features, chip_features, try_native_4byte),
            opcode_supported, r),
{
    let nat4 = try_native_4byte && master_features.contains(SpiFeatures::FOUR_BYTE_ADDR);
    let quad = chip_features.contains(Features::QUAD_IO);
    let dual = chip_features.contains(Features::DUAL_IO);
    let cands: [(bool, IoMode, u8, bool); 9] = [
        (nat4 && chip_features.supports_4ba_quad_io_read() && master_features.contains(SpiFeatures::QUAD_IO),
            IoMode::QuadIo, opcodes::QIOR_4B, true),
        (nat4 && chip_features.supports_4ba_quad_out_read() && master_features.contains(SpiFeatures::QUAD_IN),
            IoMode::QuadOut, opcodes::QOR_4B, true),
        (nat4 && chip_features.supports_4ba_dual_io_read() && master_features.contains(SpiFeatures::DUAL_IO),
            IoMode::DualIo, opcodes::DIOR_4B, true),
        (nat4 && chip_features.supports_4ba_dual_out_read() && master_features.contains(SpiFeatures::DUAL_IN),
            IoMode::DualOut, opcodes::DOR_4B, true),
        (nat4 && chip_features.supports_4ba_read(), IoMode::Single, opcodes::READ_4B, true),
        (quad && master_features.contains(SpiFeatures::QUAD_IO), IoMode::QuadIo, opcodes::QIOR, false),
        (quad && master_features.contains(SpiFeatures::QUAD_IN), IoMode::QuadOut, opcodes::QOR, false),
        (dual && master_features.contains(SpiFeatures::DUAL_IO), IoMode::DualIo, opcodes::DIOR, false),
        (dual && master_features.contains(SpiFeatures::DUAL_IN), IoMode::DualOut, opcodes::DOR, false),
    ];
    let ghost c = read_mode_candidates(master_features, chip_features, try_native_4byte);
    assert(cands@ =~= c);
    let mut i: usize = 0;
    while i < 9
        invariant
            i <= 9,
            cands@ == c,
            c == read_mode_candidates(master_features, chip_features, try_native_4byte),
            c.len() == 9,
            forall|op: u8| opcode_supported.requires((op,)),
            forall|j: int| 0 <= j < i && #[trigger] c[j].0 ==> opcode_supported.ensures((c[j].2,), false),
        decreases 9 - i,
    {
        let (usable, mode, opcode, native) = cands[i];
        if usable {
            let ok = opcode_supported(opcode);
            if ok {
                assert(c[i as int] == cands@[i as int]);
                assert(c[i as int].0 && (mode, opcode, native) == (c[i as int].1, c[i as int].2, c[i as int].3));
                assert(opcode_supported.ensures((c[i as int].2,), true));
                assert(forall|j: int| 0 <= j < i && #[trigger] c[j].0 ==> opcode_supported.ensures((c[j].2,), false));
                let r = (mode, opcode, native);
                assert(exists|k: int| 0 <= k < c.len() && #[trigger] c[k].0 && r == (c[k].1, c[k].2, c[k].3)
                    && opcode_supported.ensures((c[k].2,), true)
                    && forall|j: int| 0 <= j < k && #[trigger] c[j].0 ==> opcode_supported.ensures((c[j].2,), false)) by {
                    assert(0 <= i < c.len() && c[i as int].0 && r == (c[i as int].1, c[i as int].2, c[i as int].3));
                }
                return r;
            }
            assert(c[i as int] == cands@[i as int]);
        }
        i = i + 1;
    }
    (IoMode::Single, opcodes::READ, false)
}

} // verus!
