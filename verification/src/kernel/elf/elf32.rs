//! ELF-32 structures whose contents are read from raw bytes.
use vstd::prelude::*;
use crate::kernel::elf::{le, le_u32, le_u64};

verus! {

pub type Elf32_Half = u16;
pub type Elf32_Word = u32;
pub type Elf32_Sword = i32;
pub type Elf32_Xword = u64;
pub type Elf32_Sxword = i64;
pub type Elf32_Addr = u32;
pub type Elf32_Off = u32;
pub type Elf32_Section = u16;
pub type Elf32_Symndx = u32;
pub type Elf32_Conflict = Elf32_Addr;

/// The file header of a 32-bit executable.
pub struct Elf32_Ehdr {
    pub e_ident: [u8; 16],
    pub e_type: Elf32_Half,
    pub e_machine: Elf32_Half,
    pub e_version: Elf32_Word,
    pub e_entry: Elf32_Addr,
    pub e_phoff: Elf32_Off,
    pub e_shoff: Elf32_Off,
    pub e_flags: Elf32_Word,
    pub e_ehsize: Elf32_Half,
    pub e_phentsize: Elf32_Half,
    pub e_phnum: Elf32_Half,
    pub e_shentsize: Elf32_Half,
    pub e_shnum: Elf32_Half,
    pub e_shstrndx: Elf32_Half,
}

/// A program header of a 32-bit executable.
pub struct Elf32_Phdr {
    pub p_type: u32,
    pub p_offset: Elf32_Off,
    pub p_vaddr: Elf32_Addr,
    pub p_paddr: Elf32_Addr,
    pub p_filesz: Elf32_Word,
    pub p_memsz: Elf32_Word,
    pub p_flags: Elf32_Word,
    pub p_align: Elf32_Word,
}

pub struct Elf32_Shdr {
    pub sh_name: Elf32_Word,
    pub sh_type: Elf32_Word,
    pub sh_flags: Elf32_Word,
    pub sh_addr: Elf32_Addr,
    pub sh_offset: Elf32_Off,
    pub sh_size: Elf32_Word,
    pub sh_link: Elf32_Word,
    pub sh_info: Elf32_Word,
    pub sh_addralign: Elf32_Word,
    pub sh_entsize: Elf32_Word,
}

pub struct Elf32_Sym {
    pub st_name: Elf32_Word,
    pub st_value: Elf32_Addr,
    pub st_size: Elf32_Word,
    pub st_info: u8,
    pub st_other: u8,
    pub st_shndx: Elf32_Section,
}

pub struct Elf32_Syminfo {
    pub si_boundto: Elf32_Half,
    pub si_flags: Elf32_Half,
}

pub struct Elf32_Rel {
    pub r_offset: Elf32_Addr,
    pub r_info: Elf32_Word,
}

pub struct Elf32_Rela {
    pub r_offset: Elf32_Addr,
    pub r_info: Elf32_Word,
    pub r_addend: Elf32_Sword,
}

pub struct Elf32_Dyn {
    pub d_tag: Elf32_Sword,
    pub d_un: Union_Unnamed1,
}

pub struct Elf32_Verdef {
    pub vd_version: Elf32_Half,
    pub vd_flags: Elf32_Half,
    pub vd_ndx: Elf32_Half,
    pub vd_cnt: Elf32_Half,
    pub vd_hash: Elf32_Word,
    pub vd_aux: Elf32_Word,
    pub vd_next: Elf32_Word,
}

pub struct Elf32_Verdaux {
    pub vda_name: Elf32_Word,
    pub vda_next: Elf32_Word,
}

pub struct Elf32_Verneed {
    pub vn_version: Elf32_Half,
    pub vn_cnt: Elf32_Half,
    pub vn_file: Elf32_Word,
    pub vn_aux: Elf32_Word,
    pub vn_next: Elf32_Word,
}

pub struct Elf32_Vernaux {
    pub vna_hash: Elf32_Word,
    pub vna_flags: Elf32_Half,
    pub vna_other: Elf32_Half,
    pub vna_name: Elf32_Word,
    pub vna_next: Elf32_Word,
}

pub struct Elf32_Nhdr {
    pub n_namesz: Elf32_Word,
    pub n_descsz: Elf32_Word,
    pub n_type: Elf32_Word,
}

pub struct Elf32_RegInfo {
    pub ri_gprmask: Elf32_Word,
    pub ri_cprmask: [Elf32_Word; 4],
    pub ri_gp_value: Elf32_Sword,
}

pub struct Elf_Options {
    pub kind: u8,
    pub size: u8,
    pub section: Elf32_Section,
    pub info: Elf32_Word,
}

pub struct Elf_Options_Hw {
    pub hwp_flags1: Elf32_Word,
    pub hwp_flags2: Elf32_Word,
}

pub struct Elf32_Lib {
    pub l_name: Elf32_Word,
    pub l_time_stamp: Elf32_Word,
    pub l_checksum: Elf32_Word,
    pub l_version: Elf32_Word,
    pub l_flags: Elf32_Word,
}

/// The value of an auxiliary-vector entry of the 32-bit layout: four bytes
/// read as a number, an address or a function address.
pub struct AuxvValue {
    pub data: [u8; 4],
}

impl AuxvValue {
    pub fn a_val(&self) -> (v: u32)
        ensures
            v == le(self.data@),
    {
        le_u32(&self.data)
    }

    pub fn a_ptr(&self) -> (v: u32)
        ensures
            v == le(self.data@),
    {
        le_u32(&self.data)
    }

    pub fn a_fcn(&self) -> (v: u32)
        ensures
            v == le(self.data@),
    {
        le_u32(&self.data)
    }
}

/// An auxiliary-vector entry.
pub struct Auxv {
    pub a_type: AuxvType,
    pub a_un: AuxvValue,
}

/// The value of a dynamic entry: four bytes read as a number or an address.
pub struct Union_Unnamed1 {
    pub data: [u8; 4],
}

impl Union_Unnamed1 {
    pub fn d_val(&self) -> (v: Elf32_Word)
        ensures
            v == le(self.data@),
    {
        le_u32(&self.data)
    }

    pub fn d_ptr(&self) -> (v: Elf32_Addr)
        ensures
            v == le(self.data@),
    {
        le_u32(&self.data)
    }
}

/// The value of an auxiliary-vector entry: eight bytes read as a number,
/// an address or a function address.
pub struct Union_Unnamed3 {
    pub data: [u8; 8],
}

impl Union_Unnamed3 {
    pub fn a_val(&self) -> (v: u64)
        ensures
            v == le(self.data@),
    {
        le_u64(&self.data)
    }

    pub fn a_ptr(&self) -> (v: u64)
        ensures
            v == le(self.data@),
    {
        le_u64(&self.data)
    }

    pub fn a_fcn(&self) -> (v: u64)
        ensures
            v == le(self.data@),
    {
        le_u64(&self.data)
    }
}

pub struct Elf32_auxv_t {
    pub a_type: i32,
    pub a_un: Union_Unnamed3,
}

pub struct Struct_Unnamed5 {
    pub gt_current_g_value: Elf32_Word,
    pub gt_unused: Elf32_Word,
}

pub struct Struct_Unnamed6 {
    pub gt_g_value: Elf32_Word,
    pub gt_bytes: Elf32_Word,
}

/// A global-pointer table entry: eight bytes read as a header or an entry.
pub struct Elf32_gptab {
    pub data: [u8; 8],
}

impl Elf32_gptab {
    /// The bytes read as a header: two little-endian words.
    pub fn gt_header(&self) -> (h: Struct_Unnamed5)
        ensures
            h.gt_current_g_value == le(self.data@.subrange(0, 4)),
            h.gt_unused == le(self.data@.subrange(4, 8)),
    {
        let lo: [u8; 4] = [self.data[0], self.data[1], self.data[2], self.data[3]];
        let hi: [u8; 4] = [self.data[4], self.data[5], self.data[6], self.data[7]];
        assert(lo@ =~= self.data@.subrange(0, 4));
        assert(hi@ =~= self.data@.subrange(4, 8));
        Struct_Unnamed5 { gt_current_g_value: le_u32(&lo), gt_unused: le_u32(&hi) }
    }

    /// The bytes read as an entry: two little-endian words.
    pub fn gt_entry(&self) -> (e: Struct_Unnamed6)
        ensures
            e.gt_g_value == le(self.data@.subrange(0, 4)),
            e.gt_bytes == le(self.data@.subrange(4, 8)),
    {
        let lo: [u8; 4] = [self.data[0], self.data[1], self.data[2], self.data[3]];
        let hi: [u8; 4] = [self.data[4], self.data[5], self.data[6], self.data[7]];
        assert(lo@ =~= self.data@.subrange(0, 4));
        assert(hi@ =~= self.data@.subrange(4, 8));
        Struct_Unnamed6 { gt_g_value: le_u32(&lo), gt_bytes: le_u32(&hi) }
    }
}


/// Types of auxiliary vector entries.
#[allow(non_camel_case_types)]
#[derive(Clone, Copy, PartialEq, Eq, Structural)]
pub enum AuxvType {
    AT_NULL,
    AT_IGNORE,
    AT_EXECFD,
    AT_PHDR,
    AT_PHENT,
    AT_PHNUM,
    AT_PAGESZ,
    AT_BASE,
    AT_FLAGS,
    AT_ENTRY,
    AT_NOTELF,
    AT_UID,
    AT_EUID,
    AT_GID,
    AT_EGID,
    AT_CLKTCK,
    AT_PLATFORM,
    AT_HWCAP,
    AT_FPUCW,
    AT_DCACHEBSIZE,
    AT_ICACHEBSIZE,
    AT_UCACHEBSIZE,
    AT_IGNOREPPC,
    AT_SECURE,
    AT_BASE_PLATFORM,
    AT_RANDOM,
    AT_HWCAP2,
    AT_EXECFN,
    AT_SYSINFO,
    AT_SYSINFO_EHDR,
    AT_L1I_CACHESHAPE,
    AT_L1D_CACHESHAPE,
    AT_L2_CACHESHAPE,
    AT_L3_CACHESHAPE,
}

impl AuxvType {
    /// The number under which the entry type is stored.
    pub open spec fn spec_value(self) -> u32 {
        match self {
            AuxvType::AT_NULL => 0,
            AuxvType::AT_IGNORE => 1,
            AuxvType::AT_EXECFD => 2,
            AuxvType::AT_PHDR => 3,
            AuxvType::AT_PHENT => 4,
            AuxvType::AT_PHNUM => 5,
            AuxvType::AT_PAGESZ => 6,
            AuxvType::AT_BASE => 7,
            AuxvType::AT_FLAGS => 8,
            AuxvType::AT_ENTRY => 9,
            AuxvType::AT_NOTELF => 10,
            AuxvType::AT_UID => 11,
            AuxvType::AT_EUID => 12,
            AuxvType::AT_GID => 13,
            AuxvType::AT_EGID => 14,
            AuxvType::AT_CLKTCK => 17,
            AuxvType::AT_PLATFORM => 15,
            AuxvType::AT_HWCAP => 16,
            AuxvType::AT_FPUCW => 18,
            AuxvType::AT_DCACHEBSIZE => 19,
            AuxvType::AT_ICACHEBSIZE => 20,
            AuxvType::AT_UCACHEBSIZE => 21,
            AuxvType::AT_IGNOREPPC => 22,
            AuxvType::AT_SECURE => 23,
            AuxvType::AT_BASE_PLATFORM => 24,
            AuxvType::AT_RANDOM => 25,
            AuxvType::AT_HWCAP2 => 26,
            AuxvType::AT_EXECFN => 31,
            AuxvType::AT_SYSINFO => 32,
            AuxvType::AT_SYSINFO_EHDR => 33,
            AuxvType::AT_L1I_CACHESHAPE => 34,
            AuxvType::AT_L1D_CACHESHAPE => 35,
            AuxvType::AT_L2_CACHESHAPE => 36,
            AuxvType::AT_L3_CACHESHAPE => 37,
        }
    }

    /// The number under which the entry type is stored.
    pub fn value(&self) -> (v: u32)
        ensures
            v == self.spec_value(),
    {
        match self {
            AuxvType::AT_NULL => 0,
            AuxvType::AT_IGNORE => 1,
            AuxvType::AT_EXECFD => 2,
            AuxvType::AT_PHDR => 3,
            AuxvType::AT_PHENT => 4,
            AuxvType::AT_PHNUM => 5,
            AuxvType::AT_PAGESZ => 6,
            AuxvType::AT_BASE => 7,
            AuxvType::AT_FLAGS => 8,
            AuxvType::AT_ENTRY => 9,
            AuxvType::AT_NOTELF => 10,
            AuxvType::AT_UID => 11,
            AuxvType::AT_EUID => 12,
            AuxvType::AT_GID => 13,
            AuxvType::AT_EGID => 14,
            AuxvType::AT_CLKTCK => 17,
            AuxvType::AT_PLATFORM => 15,
            AuxvType::AT_HWCAP => 16,
            AuxvType::AT_FPUCW => 18,
            AuxvType::AT_DCACHEBSIZE => 19,
            AuxvType::AT_ICACHEBSIZE => 20,
            AuxvType::AT_UCACHEBSIZE => 21,
            AuxvType::AT_IGNOREPPC => 22,
            AuxvType::AT_SECURE => 23,
            AuxvType::AT_BASE_PLATFORM => 24,
            AuxvType::AT_RANDOM => 25,
            AuxvType::AT_HWCAP2 => 26,
            AuxvType::AT_EXECFN => 31,
            AuxvType::AT_SYSINFO => 32,
            AuxvType::AT_SYSINFO_EHDR => 33,
            AuxvType::AT_L1I_CACHESHAPE => 34,
            AuxvType::AT_L1D_CACHESHAPE => 35,
            AuxvType::AT_L2_CACHESHAPE => 36,
            AuxvType::AT_L3_CACHESHAPE => 37,
        }
    }
}

} // verus!
