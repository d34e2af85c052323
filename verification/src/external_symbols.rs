//! Symbols defined in the linker script
//!
//! Provide information about kernel the memory layout.
//! Used for kernel identity mapping and debug.

use crate::bits::lemma_address_indices;
use crate::physical_memory_management::page_aligned;
use vstd::prelude::*;

verus! {

/// The addresses that the linker gives to the parts of the kernel image.
#[derive(Debug, Copy, Clone, PartialEq, Eq, Structural)]
pub struct ExternalSymbols {
    pub kernel_start: u32,
    pub kernel_end: u32,
    pub section_text_start: u32,
    pub section_text_end: u32,
    pub section_rodata_start: u32,
    pub section_rodata_end: u32,
    pub section_data_start: u32,
    pub section_data_end: u32,
    pub section_bss_start: u32,
    pub section_bss_end: u32,
    pub stack_low: u32,
    pub stack_high: u32,
    pub common_bss_sep: u32,
    pub first_page_after_kernel: u32,
}

/// The address of the page that holds `address`.
pub open spec fn page_of(address: u32) -> u32 {
    address & 0xFFFF_F000
}

impl ExternalSymbols {
    pub fn get_kernel_start(&self) -> (address: u32)
        ensures
            address == self.kernel_start,
    {
        self.kernel_start
    }

    pub fn get_kernel_end(&self) -> (address: u32)
        ensures
            address == self.kernel_end,
    {
        self.kernel_end
    }

    pub fn get_first_page_after_kernel(&self) -> (address: u32)
        ensures
            address == self.first_page_after_kernel,
    {
        self.first_page_after_kernel
    }

    pub fn get_section_text_start(&self) -> (address: u32)
        ensures
            address == self.section_text_start,
    {
        self.section_text_start
    }

    pub fn get_section_rodata_start(&self) -> (address: u32)
        ensures
            address == self.section_rodata_start,
    {
        self.section_rodata_start
    }

    pub fn get_section_data_start(&self) -> (address: u32)
        ensures
            address == self.section_data_start,
    {
        self.section_data_start
    }

    pub fn get_section_bss_start(&self) -> (address: u32)
        ensures
            address == self.section_bss_start,
    {
        self.section_bss_start
    }

    pub fn get_section_text_end(&self) -> (address: u32)
        ensures
            address == self.section_text_end,
    {
        self.section_text_end
    }

    pub fn get_section_rodata_end(&self) -> (address: u32)
        ensures
            address == self.section_rodata_end,
    {
        self.section_rodata_end
    }

    pub fn get_section_data_end(&self) -> (address: u32)
        ensures
            address == self.section_data_end,
    {
        self.section_data_end
    }

    pub fn get_section_bss_end(&self) -> (address: u32)
        ensures
            address == self.section_bss_end,
    {
        self.section_bss_end
    }

    pub fn get_stack_low(&self) -> (address: u32)
        ensures
            address == self.stack_low,
    {
        self.stack_low
    }

    pub fn get_stack_high(&self) -> (address: u32)
        ensures
            address == self.stack_high,
    {
        self.stack_high
    }

    pub fn get_common_bss_sep(&self) -> (address: u32)
        ensures
            address == self.common_bss_sep,
    {
        self.common_bss_sep
    }

    /// Address of the page in which the kernel begins.
    pub fn kernel_first_page(&self) -> (page: u32)
        ensures
            page == page_of(self.kernel_start),
            page_aligned(page),
            page <= self.kernel_start,
    {
        proof {
            lemma_address_indices(self.kernel_start);
        }
        self.kernel_start & 0xFFFF_F000
    }

    /// Address of the page in which the kernel ends.
    pub fn kernel_last_page(&self) -> (page: u32)
        ensures
            page == page_of(self.kernel_end),
            page_aligned(page),
            page <= self.kernel_end,
    {
        proof {
            lemma_address_indices(self.kernel_end);
        }
        self.kernel_end & 0xFFFF_F000
    }
}

/// Address of the page that holds `address`.
pub fn page_address(address: u32) -> (page: u32)
    ensures
        page == page_of(address),
        page_aligned(page),
        page <= address,
{
    proof {
        lemma_address_indices(address);
    }
    address & 0xFFFF_F000
}

} // verus!
