//! The boot sector: what it says of the volume's geometry.

use crate::bytes::{u16_at, u64_at, ByteBuffer};
use crate::error::NtfsError;
use vstd::arithmetic::power2::{lemma2_to64, lemma_pow2_strictly_increases, lemma_pow2_unfold, pow2};
use vstd::prelude::*;

verus! {

/// The length of a boot sector, in bytes.
pub const BOOT_SECTOR_SIZE: usize = 512;

/// The geometry of a volume, as its boot sector states it.
#[derive(Clone, Copy, Debug, PartialEq, Eq, Structural)]
pub struct BootSectorInfo {
    pub bytes_per_sector: u16,
    pub sectors_per_cluster: u8,
    pub mft_start_cluster: u64,
    pub bytes_per_file_record_segment: u32,
    pub total_sectors: u64,
}

/// Whether `n` is one of 1, 2, 4, 8, ...
pub open spec fn is_power_of_two(n: nat) -> bool
    decreases n,
{
    n == 1 || (n > 1 && n % 2 == 0 && is_power_of_two(n / 2))
}

/// Whether the eight bytes after the jump instruction spell `NTFS`, padded
/// with four blanks.
pub open spec fn has_ntfs_signature(s: Seq<u8>) -> bool {
    &&& s.len() >= 11
    &&& s[3] == 0x4E
    &&& s[4] == 0x54
    &&& s[5] == 0x46
    &&& s[6] == 0x53
    &&& s[7] == 0x20
    &&& s[8] == 0x20
    &&& s[9] == 0x20
    &&& s[10] == 0x20
}

/// The size of a file record that the boot sector's size byte stands for.
/// From 1 to 127 the byte counts clusters; from 225 to 255 it is the
/// two's complement of the exponent of a power of two, from 31 down to 1.
/// Any other byte stands for no size.
pub open spec fn record_size_of(code: u8, cluster_size: nat) -> Option<nat> {
    if 1 <= code <= 127 {
        Some(code as nat * cluster_size)
    } else if code >= 225 {
        Some(pow2((256 - code) as nat))
    } else {
        None
    }
}

/// Whether `s` is the boot sector of an NTFS volume: long enough, signed,
/// with a sector size and a cluster size that are powers of two, and with
/// a size byte that stands for a file record size.
pub open spec fn is_ntfs_boot_sector(s: Seq<u8>) -> bool {
    &&& s.len() >= BOOT_SECTOR_SIZE
    &&& has_ntfs_signature(s)
    &&& is_power_of_two(u16_at(s, 0x0B).unwrap() as nat)
    &&& is_power_of_two(s[0x0D] as nat)
    &&& record_size_of(s[0x40], u16_at(s, 0x0B).unwrap() as nat * s[0x0D] as nat) is Some
}

/// The geometry that the boot sector `s` states.
pub open spec fn boot_sector_info(s: Seq<u8>) -> BootSectorInfo {
    let bytes_per_sector = u16_at(s, 0x0B).unwrap();
    let sectors_per_cluster = s[0x0D];
    BootSectorInfo {
        bytes_per_sector,
        sectors_per_cluster,
        mft_start_cluster: u64_at(s, 0x30).unwrap(),
        bytes_per_file_record_segment: record_size_of(
            s[0x40],
            bytes_per_sector as nat * sectors_per_cluster as nat,
        ).unwrap() as u32,
        total_sectors: u64_at(s, 0x28).unwrap(),
    }
}

/// What parsing the boot sector `s` returns.
pub open spec fn parse_boot_sector_result(s: Seq<u8>) -> Result<BootSectorInfo, NtfsError> {
    if is_ntfs_boot_sector(s) {
        Ok(boot_sector_info(s))
    } else {
        Err(NtfsError::NotNtfs)
    }
}

/// A power of two is above zero.
pub proof fn lemma_power_of_two_positive(n: nat)
    requires
        is_power_of_two(n),
    ensures
        n > 0,
{
}

fn power_of_two(n: u32) -> (b: bool)
    ensures
        b == is_power_of_two(n as nat),
{
    let mut m: u32 = n;
    while m > 1 && m % 2 == 0
        invariant
            is_power_of_two(m as nat) == is_power_of_two(n as nat),
        decreases m,
    {
        m = m / 2;
    }
    m == 1
}

fn two_to_the(exponent: u32) -> (p: u32)
    requires
        exponent <= 31,
    ensures
        p == pow2(exponent as nat),
{
    let mut p: u32 = 1;
    let mut done: u32 = 0;
    proof {
        lemma2_to64();
    }
    while done < exponent
        invariant
            done <= exponent <= 31,
            p == pow2(done as nat),
        decreases exponent - done,
    {
        proof {
            lemma_pow2_unfold((done + 1) as nat);
            lemma2_to64();
            if done + 1 < 31 {
                lemma_pow2_strictly_increases((done + 1) as nat, 31);
            }
        }
        p = p * 2;
        done = done + 1;
    }
    p
}

fn record_size(code: u8, cluster_size: u32) -> (r: Option<u32>)
    requires
        cluster_size <= 0xFFFF * 0xFF,
    ensures
        match r {
            Some(n) => record_size_of(code, cluster_size as nat) == Some(n as nat),
            None => record_size_of(code, cluster_size as nat) is None,
        },
{
    if 1 <= code && code <= 127 {
        assert(code as nat * cluster_size as nat <= 127 * (0xFFFF * 0xFF)) by (nonlinear_arith)
            requires
                code <= 127,
                cluster_size <= 0xFFFF * 0xFF,
        ;
        Some(code as u32 * cluster_size)
    } else if code >= 225 {
        Some(two_to_the(256 - code as u32))
    } else {
        None
    }
}

impl BootSectorInfo {
    /// A geometry is usable when its sector and cluster sizes are powers of
    /// two and a file record has a size above zero.
    pub open spec fn wf(&self) -> bool {
        &&& is_power_of_two(self.bytes_per_sector as nat)
        &&& is_power_of_two(self.sectors_per_cluster as nat)
        &&& self.bytes_per_file_record_segment > 0
    }

    /// The size of a cluster in bytes, as the proofs see it.
    pub open spec fn spec_cluster_size(&self) -> nat {
        self.bytes_per_sector as nat * self.sectors_per_cluster as nat
    }

    /// Whether the geometry is usable.
    pub fn is_valid(&self) -> (b: bool)
        ensures
            b == self.wf(),
    {
        power_of_two(self.bytes_per_sector as u32) && power_of_two(self.sectors_per_cluster as u32)
            && self.bytes_per_file_record_segment > 0
    }

    /// The size of a cluster in bytes: sector size times sectors per
    /// cluster.
    pub fn cluster_size(&self) -> (n: u32)
        ensures
            n == self.spec_cluster_size(),
            self.wf() ==> n > 0,
    {
        assert(self.bytes_per_sector as nat * self.sectors_per_cluster as nat <= 0xFFFF * 0xFF)
            by (nonlinear_arith)
            requires
                self.bytes_per_sector <= 0xFFFF,
                self.sectors_per_cluster <= 0xFF,
        ;
        assert(self.wf() ==> self.bytes_per_sector as nat * self.sectors_per_cluster as nat > 0)
            by (nonlinear_arith)
            requires
                self.wf() ==> self.bytes_per_sector > 0 && self.sectors_per_cluster > 0,
        ;
        self.bytes_per_sector as u32 * self.sectors_per_cluster as u32
    }

    /// The byte offset on the volume at which cluster `lcn` begins, or
    /// `None` where that offset does not fit 64 bits.
    pub fn cluster_to_byte_offset(&self, lcn: u64) -> (r: Option<u64>)
        ensures
            r == if lcn * self.spec_cluster_size() <= u64::MAX {
                Some((lcn * self.spec_cluster_size()) as u64)
            } else {
                None
            },
    {
        lcn.checked_mul(self.cluster_size() as u64)
    }
}

/// Reads the geometry of the volume from its boot sector. The sector is
/// refused with `NotNtfs` exactly where [`is_ntfs_boot_sector`] does not
/// hold of it.
pub fn parse_boot_sector(bytes: &ByteBuffer) -> (r: Result<BootSectorInfo, NtfsError>)
    ensures
        r == parse_boot_sector_result(bytes@),
        r matches Ok(info) ==> info.wf(),
{
    if bytes.len() < BOOT_SECTOR_SIZE {
        return Err(NtfsError::NotNtfs);
    }
    let s = bytes.as_slice();
    if !(s[3] == 0x4E && s[4] == 0x54 && s[5] == 0x46 && s[6] == 0x53 && s[7] == 0x20 && s[8]
        == 0x20 && s[9] == 0x20 && s[10] == 0x20) {
        return Err(NtfsError::NotNtfs);
    }
    let bytes_per_sector: u16 = match bytes.read_u16(0x0B) {
        Some(v) => v,
        None => { return Err(NtfsError::NotNtfs); },
    };
    let sectors_per_cluster: u8 = s[0x0D];
    if !power_of_two(bytes_per_sector as u32) || !power_of_two(sectors_per_cluster as u32) {
        return Err(NtfsError::NotNtfs);
    }
    assert(bytes_per_sector as nat * sectors_per_cluster as nat <= 0xFFFF * 0xFF)
        by (nonlinear_arith)
        requires
            bytes_per_sector <= 0xFFFF,
            sectors_per_cluster <= 0xFF,
    ;
    let cluster_size: u32 = bytes_per_sector as u32 * sectors_per_cluster as u32;
    let bytes_per_file_record_segment: u32 = match record_size(s[0x40], cluster_size) {
        Some(v) => v,
        None => { return Err(NtfsError::NotNtfs); },
    };
    let total_sectors: u64 = match bytes.read_u64(0x28) {
        Some(v) => v,
        None => { return Err(NtfsError::NotNtfs); },
    };
    let mft_start_cluster: u64 = match bytes.read_u64(0x30) {
        Some(v) => v,
        None => { return Err(NtfsError::NotNtfs); },
    };
    proof {
        lemma_power_of_two_positive(bytes_per_sector as nat);
        lemma_power_of_two_positive(sectors_per_cluster as nat);
        assert(bytes_per_sector as nat * sectors_per_cluster as nat > 0) by (nonlinear_arith)
            requires
                bytes_per_sector > 0,
                sectors_per_cluster > 0,
        ;
        if s[0x40] >= 225 {
            vstd::arithmetic::power2::lemma_pow2_pos((256 - s[0x40]) as nat);
        } else {
            assert(s[0x40] as nat * cluster_size as nat > 0) by (nonlinear_arith)
                requires
                    s[0x40] >= 1,
                    cluster_size > 0,
            ;
        }
    }
    Ok(
        BootSectorInfo {
            bytes_per_sector,
            sectors_per_cluster,
            mft_start_cluster,
            bytes_per_file_record_segment,
            total_sectors,
        },
    )
}

} // verus!
