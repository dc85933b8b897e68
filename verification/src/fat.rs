//! A read-only FAT16 volume reader over an in-memory image: the BIOS
//! parameter block, the extended boot record, the allocation table, cluster
//! chains and the root directory.

use vstd::prelude::*;
use vstd::utf8::{decode_utf8, valid_utf8};
use crate::bin_helpers::{le16, le32, read_le_u16, read_le_u32, read_u8, read_utf8_str};

verus! {

/// Why an image could not be read: it ends before a required structure, a
/// text field is not character data, a cluster chain hits a sector marked
/// bad, or a chain does not terminate.
#[derive(Debug, Clone, Copy, PartialEq, Eq, Structural)]
pub enum FatError {
    Truncated,
    BadText,
    BadSector,
    UnterminatedChain,
}

#[derive(Debug, Clone, Copy, PartialEq, Eq, Structural)]
pub enum FatType {
    Fat16,
}

/// The fields of the BIOS parameter block this reader uses.
#[derive(Debug)]
pub struct BiosParameterBlock {
    pub bytes_per_sector: u16,
    pub sectors_per_cluster: u8,
    pub reserved_sector_count: u16,
    pub fat_table_count: u8,
    pub root_dir_entry_count: u16,
    pub total_sectors_in_lv: u16,
    pub media_descriptor_type: u8,
    pub sectors_per_fat: u16,
    pub sectors_per_track: u16,
    pub head_count: u16,
    pub hidden_sector_count: u32,
    pub large_sector_count: u32,
}

/// The extended boot record, as FAT16 lays it out.
#[derive(Debug)]
pub struct ExtendedBootRecord {
    pub drive_number: u8,
    pub flags: u8,
    pub signature: u8,
    pub serial_number: u32,
    pub volume_label: String,
    pub system_id: String,
    pub boot_partition_signature: u16,
}

/// One short-format directory entry.
#[derive(Debug)]
pub struct StandardFormat {
    pub filename: String,
    pub extension: String,
    pub raw_attributes: u8,
    pub creation_time: u8,
    pub creation_time_hms: u16,
    pub creation_time_ymd: u16,
    pub last_access_date: u16,
    pub cluster_id_msb: u16,
    pub last_modified_time: u16,
    pub last_modified_date: u16,
    pub cluster_id_lsb: u16,
    pub file_size: u32,
}

/// One long-file-name entry.
#[derive(Debug)]
pub struct LFN {
    pub entry_order_raw: u8,
    pub raw_str1: String,
    pub attribute: u8,
    pub entry_type: u8,
    pub checksum: u8,
    pub raw_str2: String,
    pub unused_field: u16,
    pub raw_str3: String,
}

/// One root-directory entry with any long-name parts collected so far.
#[derive(Debug)]
pub struct DirectoryEntry {
    pub standard_format: StandardFormat,
    pub lfn: Vec<LFN>,
}

impl DirectoryEntry {
    /// The entry's name joined with its extension by a dot.
    pub fn filename(&self) -> (r: String)
        ensures
            r@ == self.standard_format.filename@ + "."@ + self.standard_format.extension@,
    {
        let mut s = self.standard_format.filename.clone();
        s.append(".");
        s.append(self.standard_format.extension.as_str());
        s
    }
}

/// Reads the BIOS parameter block at the head of a volume image.
pub fn read_bios_parameter_block(fs: &[u8]) -> (r: Result<BiosParameterBlock, FatError>)
    ensures
        fs@.len() >= 36 <==> r is Ok,
        r matches Ok(b) ==> ({
            &&& b.bytes_per_sector == le16(fs@[11], fs@[12])
            &&& b.sectors_per_cluster == fs@[13]
            &&& b.reserved_sector_count == le16(fs@[14], fs@[15])
            &&& b.fat_table_count == fs@[16]
            &&& b.root_dir_entry_count == le16(fs@[17], fs@[18])
            &&& b.total_sectors_in_lv == le16(fs@[19], fs@[20])
            &&& b.media_descriptor_type == fs@[21]
            &&& b.sectors_per_fat == le16(fs@[22], fs@[23])
            &&& b.sectors_per_track == le16(fs@[24], fs@[25])
            &&& b.head_count == le16(fs@[26], fs@[27])
            &&& b.hidden_sector_count == le32(fs@[28], fs@[29], fs@[30], fs@[31])
            &&& b.large_sector_count == le32(fs@[32], fs@[33], fs@[34], fs@[35])
        }),
        r is Err ==> (r matches Err(e) && e == FatError::Truncated),
{
    if fs.len() < 36 {
        return Result::Err(FatError::Truncated);
    }
    Result::Ok(
        BiosParameterBlock {
            bytes_per_sector: read_le_u16(&fs[11..fs.len()]),
            sectors_per_cluster: read_u8(&fs[13..fs.len()]),
            reserved_sector_count: read_le_u16(&fs[14..fs.len()]),
            fat_table_count: read_u8(&fs[16..fs.len()]),
            root_dir_entry_count: read_le_u16(&fs[17..fs.len()]),
            total_sectors_in_lv: read_le_u16(&fs[19..fs.len()]),
            media_descriptor_type: read_u8(&fs[21..fs.len()]),
            sectors_per_fat: read_le_u16(&fs[22..fs.len()]),
            sectors_per_track: read_le_u16(&fs[24..fs.len()]),
            head_count: read_le_u16(&fs[26..fs.len()]),
            hidden_sector_count: read_le_u32(&fs[28..fs.len()]),
            large_sector_count: read_le_u32(&fs[32..fs.len()]),
        },
    )
}

/// Reads a fixed text field; the bytes must be character data.
fn read_text(fs: &[u8], from: usize, to: usize) -> (r: Result<String, FatError>)
    requires
        from <= to <= fs@.len(),
    ensures
        r matches Ok(s) ==> valid_utf8(fs@.subrange(from as int, to as int)) && s@ == decode_utf8(
            fs@.subrange(from as int, to as int),
        ),
        r is Err ==> (r matches Err(e) && e == FatError::BadText),
{
    let field: &[u8] = &fs[from..to];
    if !crate::bin_helpers::utf8_ok(field) {
        return Result::Err(FatError::BadText);
    }
    Result::Ok(read_utf8_str(field))
}

/// Reads the FAT16 extended boot record.
pub fn read_extended_boot_record(fs: &[u8]) -> (r: Result<ExtendedBootRecord, FatError>)
    ensures
        r matches Ok(b) ==> ({
            &&& fs@.len() >= 512
            &&& b.drive_number == fs@[36]
            &&& b.flags == fs@[37]
            &&& b.signature == fs@[38]
            &&& b.serial_number == le32(fs@[39], fs@[40], fs@[41], fs@[42])
            &&& b.volume_label@ == decode_utf8(fs@.subrange(43, 54))
            &&& b.system_id@ == decode_utf8(fs@.subrange(54, 62))
            &&& b.boot_partition_signature == le16(fs@[510], fs@[511])
        }),
{
    if fs.len() < 512 {
        return Result::Err(FatError::Truncated);
    }
    let volume_label = match read_text(fs, 43, 54) {
        Result::Ok(s) => s,
        Result::Err(e) => {
            return Result::Err(e);
        },
    };
    let system_id = match read_text(fs, 54, 62) {
        Result::Ok(s) => s,
        Result::Err(e) => {
            return Result::Err(e);
        },
    };
    Result::Ok(
        ExtendedBootRecord {
            drive_number: read_u8(&fs[36..fs.len()]),
            flags: read_u8(&fs[37..fs.len()]),
            signature: read_u8(&fs[38..fs.len()]),
            serial_number: read_le_u32(&fs[39..fs.len()]),
            volume_label,
            system_id,
            boot_partition_signature: read_le_u16(&fs[510..fs.len()]),
        },
    )
}

/// The allocation-table entry `j` as the image holds it: a little-endian
/// pair at the table's start.
pub open spec fn fat_entry(data: Seq<u8>, start: int, j: int) -> int {
    le16(data[start + 2 * j], data[start + 2 * j + 1])
}

/// A FAT16 volume over an in-memory image, with its allocation table
/// decoded.
pub struct FatFs<'a> {
    pub data: &'a [u8],
    pub fat_type: FatType,
    pub bios_parameter_block: BiosParameterBlock,
    pub extended_boot_record: ExtendedBootRecord,
    pub fat_table: Vec<u16>,
}

impl<'a> FatFs<'a> {
    /// Opens a volume: reads both boot structures and decodes the
    /// allocation table, each entry a little-endian pair.
    pub fn new(data: &'a [u8], fat_type: FatType) -> (r: Result<FatFs<'a>, FatError>)
        ensures
            r matches Ok(f) ==> ({
                &&& f.data@ == data@
                &&& f.fat_type == fat_type
                &&& forall|i: int| 0 <= i < f.fat_table@.len() ==> #[trigger] f.fat_table@[i]
                    == fat_entry(
                    data@,
                    f.bios_parameter_block.bytes_per_sector
                        * f.bios_parameter_block.reserved_sector_count,
                    i,
                )
            }),
    {
        let bios_parameter_block = match read_bios_parameter_block(data) {
            Result::Ok(b) => b,
            Result::Err(e) => {
                return Result::Err(e);
            },
        };
        let extended_boot_record = match read_extended_boot_record(data) {
            Result::Ok(b) => b,
            Result::Err(e) => {
                return Result::Err(e);
            },
        };
        proof {
            assert((bios_parameter_block.bytes_per_sector as int)
                * (bios_parameter_block.reserved_sector_count as int) <= 65535 * 65535)
                by (nonlinear_arith)
                requires
                    bios_parameter_block.bytes_per_sector <= 65535,
                    bios_parameter_block.reserved_sector_count <= 65535,
            ;
            assert((bios_parameter_block.sectors_per_fat as int)
                * (bios_parameter_block.bytes_per_sector as int) <= 65535 * 65535)
                by (nonlinear_arith)
                requires
                    bios_parameter_block.sectors_per_fat <= 65535,
                    bios_parameter_block.bytes_per_sector <= 65535,
            ;
        }
        if data.len() > 0xFFFF_FFFFusize {
            return Result::Err(FatError::Truncated);
        }
        let dl = data.len();
        let start_fat_addr: usize = bios_parameter_block.bytes_per_sector as usize
            * bios_parameter_block.reserved_sector_count as usize;
        let fat_bytes: usize = bios_parameter_block.sectors_per_fat as usize
            * bios_parameter_block.bytes_per_sector as usize;
        let entry_count = fat_bytes / 2;
        if start_fat_addr > dl || fat_bytes > dl - start_fat_addr {
            return Result::Err(FatError::Truncated);
        }
        let mut fat_table: Vec<u16> = Vec::new();
        let mut i: usize = 0;
        while i < entry_count
            invariant
                0 <= i <= entry_count,
                entry_count == fat_bytes / 2,
                dl == data@.len(),
                start_fat_addr + fat_bytes <= dl,
                fat_bytes <= 65535 * 65535,
                fat_table@.len() == i,
                start_fat_addr == bios_parameter_block.bytes_per_sector
                    * bios_parameter_block.reserved_sector_count,
                forall|j: int| 0 <= j < i ==> #[trigger] fat_table@[j] == fat_entry(
                    data@,
                    start_fat_addr as int,
                    j,
                ),
            decreases entry_count - i,
        {
            let at = start_fat_addr + 2 * i;
            let v = read_le_u16(&data[at..data.len()]);
            fat_table.push(v);
            i = i + 1;
        }
        Result::Ok(FatFs { data, fat_type, bios_parameter_block, extended_boot_record, fat_table })
    }

    /// The size of one allocation table, in sectors.
    pub fn fat_size(&self) -> (r: u16)
        ensures
            r == self.bios_parameter_block.sectors_per_fat,
    {
        self.bios_parameter_block.sectors_per_fat
    }

    /// How many sectors the root directory occupies, rounded up. Reading a
    /// volume whose sector size reads zero is refused.
    pub fn root_dir_sectors(&self) -> (r: Result<u32, FatError>)
        ensures
            r is Ok <==> self.bios_parameter_block.bytes_per_sector > 0,
            r matches Ok(v) ==> v == (self.bios_parameter_block.root_dir_entry_count * 32
                + (self.bios_parameter_block.bytes_per_sector - 1)) as int
                / self.bios_parameter_block.bytes_per_sector as int,
    {
        let bps = self.bios_parameter_block.bytes_per_sector as u32;
        if bps == 0 {
            return Result::Err(FatError::Truncated);
        }
        let v: u32 = (self.bios_parameter_block.root_dir_entry_count as u32 * 32 + (bps - 1)) / bps;
        Result::Ok(v)
    }

    /// The first sector holding file data: past the reserved sectors, every
    /// allocation table and the root directory.
    pub fn first_data_sector(&self) -> (r: Result<u32, FatError>)
        ensures
            r matches Ok(v) ==> self.bios_parameter_block.bytes_per_sector > 0 && v
                == self.bios_parameter_block.reserved_sector_count
                + self.bios_parameter_block.fat_table_count
                * self.bios_parameter_block.sectors_per_fat + (
            self.bios_parameter_block.root_dir_entry_count * 32
                + (self.bios_parameter_block.bytes_per_sector - 1)) as int
                / self.bios_parameter_block.bytes_per_sector as int,
    {
        let rds = match self.root_dir_sectors() {
            Result::Ok(v) => v,
            Result::Err(e) => {
                return Result::Err(e);
            },
        };
        proof {
            assert((self.bios_parameter_block.fat_table_count as int)
                * (self.bios_parameter_block.sectors_per_fat as int) <= 255 * 65535)
                by (nonlinear_arith)
                requires
                    self.bios_parameter_block.fat_table_count <= 255,
                    self.bios_parameter_block.sectors_per_fat <= 65535,
            ;
        }
        if rds > 0xFFFF_FFFFu32 - 0xFF_FF00u32 {
            return Result::Err(FatError::Truncated);
        }
        let v: u32 = self.bios_parameter_block.reserved_sector_count as u32
            + self.bios_parameter_block.fat_table_count as u32
                * self.bios_parameter_block.sectors_per_fat as u32 + rds;
        Result::Ok(v)
    }

    /// Follows the allocation chain from `cluster` until the end-of-chain
    /// mark, collecting the clusters in order; a chain longer than the table
    /// cannot terminate and is reported.
    pub fn data_clusters(&self, cluster: u16) -> (r: Result<Vec<u16>, FatError>)
        ensures
            r matches Ok(c) ==> c@.len() > 0 && c@[0] == cluster,
    {
        let mut our_clusters: Vec<u16> = Vec::new();
        let mut cur = cluster;
        our_clusters.push(cur);
        if self.fat_table.len() == usize::MAX {
            return Result::Err(FatError::UnterminatedChain);
        }
        let limit = self.fat_table.len() + 1;
        let mut steps: usize = 0;
        while steps < limit
            invariant
                our_clusters@.len() == steps + 1,
                our_clusters@[0] == cluster,
            decreases limit - steps,
        {
            if cur as usize >= self.fat_table.len() {
                return Result::Err(FatError::Truncated);
            }
            let table_val = self.fat_table[cur as usize];
            if table_val == 0xFFF7 {
                return Result::Err(FatError::BadSector);
            }
            if table_val >= 0xFFF8 {
                return Result::Ok(our_clusters);
            }
            cur = table_val;
            our_clusters.push(cur);
            steps = steps + 1;
        }
        Result::Err(FatError::UnterminatedChain)
    }

    /// Copies a file's bytes out of its clusters: each cluster contributes
    /// a cluster's worth of bytes until `file_size` bytes are out.
    pub fn read_clusters(&self, file_size: u32, clusters: &Vec<u16>) -> (r: Result<
        Vec<u8>,
        FatError,
    >)
        ensures
            r matches Ok(d) ==> d@.len() == file_size,
    {
        let bps = self.bios_parameter_block.bytes_per_sector as u64;
        let spc = self.bios_parameter_block.sectors_per_cluster as u64;
        proof {
            assert((self.bios_parameter_block.sectors_per_cluster as int)
                * (self.bios_parameter_block.bytes_per_sector as int) <= 255 * 65535)
                by (nonlinear_arith)
                requires
                    self.bios_parameter_block.sectors_per_cluster <= 255,
                    self.bios_parameter_block.bytes_per_sector <= 65535,
            ;
        }
        let cluster_size: u64 = spc * bps;
        if cluster_size == 0 {
            return Result::Err(FatError::Truncated);
        }
        let fds = match self.first_data_sector() {
            Result::Ok(v) => v,
            Result::Err(e) => {
                return Result::Err(e);
            },
        };
        let mut data: Vec<u8> = Vec::new();
        let nc = clusters.len();
        let mut ci: usize = 0;
        while ci < nc
            invariant
                0 <= ci <= nc,
                nc == clusters@.len(),
                data@.len() <= file_size,
                spc == self.bios_parameter_block.sectors_per_cluster,
                bps == self.bios_parameter_block.bytes_per_sector,
                spc <= 255,
                bps <= 65535,
                fds <= 0xFFFF_FFFFu32,
                cluster_size == spc * bps,
                cluster_size > 0,
                cluster_size <= 255 * 65535,
            decreases nc - ci,
        {
            let c = clusters[ci];
            if c < 2 {
                return Result::Err(FatError::BadSector);
            }
            proof {
                assert(((c - 2) as int) * (spc as int) <= 65535 * 255) by (nonlinear_arith)
                    requires
                        2 <= c <= 65535,
                        spc <= 255,
                ;
            }
            let t1: u64 = (c - 2) as u64 * spc;
            let t2: u64 = t1 + fds as u64;
            proof {
                assert((t2 as int) * (bps as int) <= 0x1_0100_0000 * 65535) by (nonlinear_arith)
                    requires
                        t2 <= 0x1_0100_0000,
                        bps <= 65535,
                ;
            }
            let cluster_loc: u64 = t2 * bps;
            let mut b: u64 = 0;
            while b < cluster_size
                invariant
                    0 <= b <= cluster_size,
                    data@.len() <= file_size,
                    cluster_loc <= 0x1_0100_0000u64 * 65535,
                    cluster_size <= 255 * 65535,
                decreases cluster_size - b,
            {
                if data.len() as u32 == file_size {
                    return Result::Ok(data);
                }
                let at = cluster_loc + b;
                if at >= self.data.len() as u64 {
                    return Result::Err(FatError::Truncated);
                }
                data.push(self.data[at as usize]);
                b = b + 1;
            }
            ci = ci + 1;
        }
        if data.len() as u32 == file_size {
            Result::Ok(data)
        } else {
            Result::Err(FatError::Truncated)
        }
    }

    /// Lists the root directory: every allocated short-format entry, in
    /// order. Long-file-name entries are recognised by their marker
    /// attribute and passed over, as are deleted entries; a zero first byte
    /// ends the directory.
    pub fn list_root_dir(&self) -> (r: Result<Vec<DirectoryEntry>, FatError>)
        ensures
            r matches Ok(v) ==> v@.len() <= self.bios_parameter_block.root_dir_entry_count,
    {
        let fds = match self.first_data_sector() {
            Result::Ok(v) => v,
            Result::Err(e) => {
                return Result::Err(e);
            },
        };
        let rds = match self.root_dir_sectors() {
            Result::Ok(v) => v,
            Result::Err(e) => {
                return Result::Err(e);
            },
        };
        if fds < rds {
            return Result::Err(FatError::Truncated);
        }
        let bps = self.bios_parameter_block.bytes_per_sector as u64;
        proof {
            assert(((fds - rds) as int) * (bps as int) <= 0xFFFF_FFFF * 65535)
                by (nonlinear_arith)
                requires
                    fds - rds <= 0xFFFF_FFFF,
                    bps <= 65535,
            ;
        }
        let root_dir_start: u64 = (fds - rds) as u64 * bps;
        let capacity = self.bios_parameter_block.root_dir_entry_count as usize;
        let mut entries: Vec<DirectoryEntry> = Vec::new();
        let mut i: usize = 0;
        while i < capacity
            invariant
                0 <= i <= capacity,
                capacity == self.bios_parameter_block.root_dir_entry_count,
                entries@.len() <= i,
                root_dir_start <= 0xFFFF_FFFFu64 * 65535,
            decreases capacity - i,
        {
            let entry_base: u64 = root_dir_start + i as u64 * 32;
            if entry_base > u64::MAX - 32 || entry_base + 32 > self.data.len() as u64 {
                return Result::Err(FatError::Truncated);
            }
            let base = entry_base as usize;
            if self.data[base] == 0 {
                return Result::Ok(entries);
            }
            if self.data[base] != 0xE5 && self.data[base + 11] != 0x0F {
                let filename = match read_text(self.data, base, base + 8) {
                    Result::Ok(s) => s,
                    Result::Err(e) => {
                        return Result::Err(e);
                    },
                };
                let extension = match read_text(self.data, base + 8, base + 11) {
                    Result::Ok(s) => s,
                    Result::Err(e) => {
                        return Result::Err(e);
                    },
                };
                let entry = StandardFormat {
                    filename,
                    extension,
                    raw_attributes: 0,
                    creation_time: 0,
                    creation_time_hms: 0,
                    creation_time_ymd: 0,
                    last_access_date: 0,
                    cluster_id_msb: 0,
                    last_modified_time: 0,
                    last_modified_date: 0,
                    cluster_id_lsb: read_le_u16(&self.data[base + 26..self.data.len()]),
                    file_size: read_le_u32(&self.data[base + 28..self.data.len()]),
                };
                entries.push(DirectoryEntry { standard_format: entry, lfn: Vec::new() });
            }
            i = i + 1;
        }
        Result::Ok(entries)
    }

    /// Reads a whole file: follows its cluster chain, then copies the bytes.
    pub fn read_file(&self, entry: &DirectoryEntry) -> (r: Result<Vec<u8>, FatError>)
        ensures
            r matches Ok(d) ==> d@.len() == entry.standard_format.file_size,
    {
        let clusters = match self.data_clusters(entry.standard_format.cluster_id_lsb) {
            Result::Ok(c) => c,
            Result::Err(e) => {
                return Result::Err(e);
            },
        };
        self.read_clusters(entry.standard_format.file_size, &clusters)
    }
}

} // verus!
