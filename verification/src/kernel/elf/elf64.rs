//! ELF-64 structures.
use vstd::prelude::*;
use crate::kernel::elf::{le, le_u64};

verus! {

pub type Elf64_Half = u16;
pub type Elf64_Word = u32;
pub type Elf64_Sword = i32;
pub type Elf64_Xword = u64;
pub type Elf64_Sxword = i64;
pub type Elf64_Addr = u64;
pub type Elf64_Off = u64;
pub type Elf64_Section = u16;
pub type Elf64_Symndx = u64;

pub struct Elf64_Ehdr {
    pub e_ident: [u8; 16],
    pub e_type: Elf64_Half,
    pub e_machine: Elf64_Half,
    pub e_version: Elf64_Word,
    pub e_entry: Elf64_Addr,
    pub e_phoff: Elf64_Off,
    pub e_shoff: Elf64_Off,
    pub e_flags: Elf64_Word,
    pub e_ehsize: Elf64_Half,
    pub e_phentsize: Elf64_Half,
    pub e_phnum: Elf64_Half,
    pub e_shentsize: Elf64_Half,
    pub e_shnum: Elf64_Half,
    pub e_shstrndx: Elf64_Half,
}

pub struct Elf64_Phdr {
    pub p_type: u32,
    pub p_flags: Elf64_Word,
    pub p_offset: Elf64_Off,
    pub p_vaddr: Elf64_Addr,
    pub p_paddr: Elf64_Addr,
    pub p_filesz: Elf64_Xword,
    pub p_memsz: Elf64_Xword,
    pub p_align: Elf64_Xword,
}

pub struct Elf64_Shdr {
    pub sh_name: Elf64_Word,
    pub sh_type: Elf64_Word,
    pub sh_flags: Elf64_Xword,
    pub sh_addr: Elf64_Addr,
    pub sh_offset: Elf64_Off,
    pub sh_size: Elf64_Xword,
    pub sh_link: Elf64_Word,
    pub sh_info: Elf64_Word,
    pub sh_addralign: Elf64_Xword,
    pub sh_entsize: Elf64_Xword,
}

pub struct Elf64_Sym {
    pub st_name: Elf64_Word,
    pub st_info: u8,
    pub st_other: u8,
    pub st_shndx: Elf64_Section,
    pub st_value: Elf64_Addr,
    pub st_size: Elf64_Xword,
}

pub struct Elf64_Syminfo {
    pub si_boundto: Elf64_Half,
    pub si_flags: Elf64_Half,
}

pub struct Elf64_Rel {
    pub r_offset: Elf64_Addr,
    pub r_info: Elf64_Xword,
}

pub struct Elf64_Rela {
    pub r_offset: Elf64_Addr,
    pub r_info: Elf64_Xword,
    pub r_addend: Elf64_Sxword,
}

/// The value of a dynamic entry: eight bytes read as a number or an address.
pub struct Union_Unnamed2 {
    pub data: [u8; 8],
}

impl Union_Unnamed2 {
    /// The bytes read as a little-endian number.
    pub fn d_val(&self) -> (v: Elf64_Xword)
        ensures
            v == le(self.data@),
    {
        le_u64(&self.data)
    }

    /// The bytes read as a little-endian address.
    pub fn d_ptr(&self) -> (v: Elf64_Addr)
        ensures
            v == le(self.data@),
    {
        le_u64(&self.data)
    }
}

pub struct Elf64_Dyn {
    pub d_tag: Elf64_Sxword,
    pub d_un: Union_Unnamed2,
}

pub struct Elf64_Verdef {
    pub vd_version: Elf64_Half,
    pub vd_flags: Elf64_Half,
    pub vd_ndx: Elf64_Half,
    pub vd_cnt: Elf64_Half,
    pub vd_hash: Elf64_Word,
    pub vd_aux: Elf64_Word,
    pub vd_next: Elf64_Word,
}

pub struct Elf64_Verdaux {
    pub vda_name: Elf64_Word,
    pub vda_next: Elf64_Word,
}

pub struct Elf64_Verneed {
    pub vn_version: Elf64_Half,
    pub vn_cnt: Elf64_Half,
    pub vn_file: Elf64_Word,
    pub vn_aux: Elf64_Word,
    pub vn_next: Elf64_Word,
}

pub struct Elf64_Vernaux {
    pub vna_hash: Elf64_Word,
    pub vna_flags: Elf64_Half,
    pub vna_other: Elf64_Half,
    pub vna_name: Elf64_Word,
    pub vna_next: Elf64_Word,
}

/// The value of an auxiliary-vector entry: eight bytes read as a number,
/// an address or a function address.
pub struct Union_Unnamed4 {
    pub data: [u8; 8],
}

impl Union_Unnamed4 {
    pub fn a_val(&self) -> (v: u64)
        ensures
            v == le(self.data@),
    {
        le_u64(&self.data)
    }

    pub fn a_ptr(&self) -> (v: u64)
        ensures
            v == le(self.data@),
    {
        le_u64(&self.data)
    }

    pub fn a_fcn(&self) -> (v: u64)
        ensures
            v == le(self.data@),
    {
        le_u64(&self.data)
    }
}

pub struct Elf64_auxv_t {
    pub a_type: i64,
    pub a_un: Union_Unnamed4,
}

pub struct Elf64_Nhdr {
    pub n_namesz: Elf64_Word,
    pub n_descsz: Elf64_Word,
    pub n_type: Elf64_Word,
}

pub struct Elf64_Lib {
    pub l_name: Elf64_Word,
    pub l_time_stamp: Elf64_Word,
    pub l_checksum: Elf64_Word,
    pub l_version: Elf64_Word,
    pub l_flags: Elf64_Word,
}

} // verus!
