//! Conversion between file offsets ("PC" addresses) and LoROM bus addresses:
//! each 32 KiB bank of the file is mapped to the upper half of a bus bank from
//! bank `0x80` on.
use vstd::prelude::*;

verus! {

/// Size of one LoROM bank of the file.
pub const BANK_SIZE: u32 = 0x8000;

/// The LoROM address of file offset `pc`.
pub open spec fn lorom_of(pc: u32) -> int {
    (0x80 + pc / 0x8000) * 0x10000 + 0x8000 + pc % 0x8000
}

/// The file offset of LoROM address `lorom`.
pub open spec fn pc_of(lorom: u32) -> int {
    (lorom / 0x10000 % 0x80) * 0x8000 + lorom % 0x8000
}

/// Maps a file offset below `0x400000` to its LoROM address.
pub fn pc_to_lorom(pc: u32) -> (r: Result<u32, &'static str>)
    ensures
        pc < 0x400000 ==> r == Ok::<u32, &'static str>(lorom_of(pc) as u32),
        pc >= 0x400000 ==> (r matches Err(m) && m@ == "pc out of bounds"@),
{
    if pc >= 0x400000 {
        proof {
            reveal_strlit("pc out of bounds");
        }
        Err("pc out of bounds")
    } else {
        let lower_word = pc & 0x00FFFF | 0x8000;
        assert(pc & 0x00FFFF | 0x8000 == 0x8000 + pc % 0x8000) by (bit_vector);
        let bank = pc / 0x8000;
        assert(bank << 16 == bank * 0x10000 && bank * 0x10000 <= 0x7F0000) by (bit_vector)
            requires
                bank < 0x80,
        ;
        let high = (bank << 16) + 0x800000;
        assert(high & 0xFFFF == 0) by (bit_vector)
            requires
                high == bank * 0x10000 + 0x800000,
                bank < 0x80,
        ;
        assert(high | lower_word == high + lower_word) by (bit_vector)
            requires
                high & 0xFFFF == 0,
                lower_word < 0x10000,
        ;
        let lorom = high | lower_word;
        Ok(lorom)
    }
}

/// Maps a LoROM address in `0x800000..=0xFFFFFF` to its file offset.
pub fn lorom_to_pc(lorom: u32) -> (r: Result<u32, &'static str>)
    ensures
        0x800000 <= lorom <= 0xFFFFFF ==> r == Ok::<u32, &'static str>(pc_of(lorom) as u32),
        !(0x800000 <= lorom <= 0xFFFFFF) ==> (r matches Err(m) && m@ == "lorom out of bounds"@),
{
    if lorom < 0x800000 || lorom > 0xFFFFFF {
        proof {
            reveal_strlit("lorom out of bounds");
        }
        Err("lorom out of bounds")
    } else {
        let bank = (lorom & 0x7F0000) >> 1;
        let offset = lorom & 0x7FFF;
        assert(bank == (lorom / 0x10000 % 0x80) * 0x8000 && bank & 0x7FFF == 0) by (bit_vector)
            requires
                bank == (lorom & 0x7F0000) >> 1,
        ;
        assert(offset == lorom % 0x8000) by (bit_vector)
            requires
                offset == lorom & 0x7FFF,
        ;
        assert(bank | offset == bank + offset) by (bit_vector)
            requires
                bank & 0x7FFF == 0,
                offset < 0x8000,
        ;
        Ok(bank | offset)
    }
}

} // verus!
