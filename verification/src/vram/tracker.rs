//! GPUs and their memory.
use vstd::prelude::*;
use vstd::string::*;

use crate::config::backend::{Backend, BackendTags};
use crate::text::{decimal, decimal_text};

verus! {

broadcast use vstd::string::group_string_axioms;

/// One GPU as last observed.
#[derive(Debug)]
pub struct GpuInfo {
    pub id: String,
    pub pci_bus_id: Option<String>,
    pub vulkan_device: Option<String>,
    pub vulkan_index: Option<usize>,
    pub cuda_device: Option<String>,
    pub cuda_index: Option<usize>,
    pub rocm_index: Option<usize>,
    pub sycl_index: Option<usize>,
    pub tags: BackendTags,
    pub integrated: bool,
    pub total_vram: u64,
    pub used_vram: u64,
    pub busy_pct: u8,
    /// Thousandths of a degree Celsius.
    pub temp_c: Option<i64>,
    /// Whether a monitor is connected.
    pub display_attached: bool,
}

impl Clone for GpuInfo {
    fn clone(&self) -> (r: Self)
        ensures
            r == *self,
    {
        GpuInfo {
            id: self.id.clone(),
            pci_bus_id: self.pci_bus_id.clone(),
            vulkan_device: self.vulkan_device.clone(),
            vulkan_index: self.vulkan_index,
            cuda_device: self.cuda_device.clone(),
            cuda_index: self.cuda_index,
            rocm_index: self.rocm_index,
            sycl_index: self.sycl_index,
            tags: self.tags,
            integrated: self.integrated,
            total_vram: self.total_vram,
            used_vram: self.used_vram,
            busy_pct: self.busy_pct,
            temp_c: self.temp_c,
            display_attached: self.display_attached,
        }
    }
}

/// The numbers of all GPUs, copied.
pub fn clone_gpus(v: &[GpuInfo]) -> (r: Vec<GpuInfo>)
    ensures
        r@ == v@,
{
    let mut r: Vec<GpuInfo> = Vec::new();
    let mut i: usize = 0;
    while i < v.len()
        invariant
            i <= v@.len(),
            r@ == v@.take(i as int),
        decreases v@.len() - i,
    {
        r.push(v[i].clone());
        assert(v@.take(i + 1) =~= v@.take(i as int).push(v@[i as int]));
        i += 1;
    }
    assert(v@.take(i as int) =~= v@);
    r
}

impl GpuInfo {
    /// Memory that nothing uses.
    pub open spec fn free(&self) -> int {
        if self.used_vram <= self.total_vram {
            self.total_vram - self.used_vram
        } else {
            0
        }
    }

    /// The share of memory that may be filled, in percent.
    pub open spec fn cap(&self, gpu_cap_pct: int, display_cap_pct: int) -> int {
        if self.display_attached {
            display_cap_pct
        } else {
            gpu_cap_pct
        }
    }

    /// Memory that may still be filled without exceeding the cap.
    pub open spec fn allocatable(&self, gpu_cap_pct: int, display_cap_pct: int) -> int {
        let limit = self.total_vram * clamp_pct(self.cap(gpu_cap_pct, display_cap_pct)) / 100;
        if self.used_vram <= limit {
            limit - self.used_vram
        } else {
            0
        }
    }

    /// The number of the device in the backend's own order.
    pub open spec fn index_for(&self, b: Backend) -> Option<usize> {
        match b {
            Backend::Vulkan => self.vulkan_index,
            Backend::Cuda => self.cuda_index,
            Backend::Rocm => self.rocm_index,
            Backend::Sycl => self.sycl_index,
        }
    }

    /// The name of the device for the backend.
    pub open spec fn device_for(&self, b: Backend) -> Option<Seq<char>> {
        match self.index_for(b) {
            Some(i) => Some(b.prefix() + decimal(i as nat)),
            None => None,
        }
    }

    /// Memory that nothing uses.
    pub fn free_vram(&self) -> (r: u64)
        ensures
            r == self.free(),
    {
        self.total_vram.saturating_sub(self.used_vram)
    }

    /// The share of memory that may be filled, in percent.
    pub fn vram_cap_pct(&self, gpu_cap_pct: u64, display_cap_pct: u64) -> (r: u64)
        ensures
            r == self.cap(gpu_cap_pct as int, display_cap_pct as int),
    {
        if self.display_attached {
            display_cap_pct
        } else {
            gpu_cap_pct
        }
    }

    /// Memory that may still be filled without exceeding the cap.
    pub fn allocatable_vram(&self, gpu_cap_pct: u64, display_cap_pct: u64) -> (r: u64)
        ensures
            r == self.allocatable(gpu_cap_pct as int, display_cap_pct as int),
    {
        let cap = clamped_pct(self.vram_cap_pct(gpu_cap_pct, display_cap_pct));
        let limit = percent_of(self.total_vram, cap);
        limit.saturating_sub(self.used_vram)
    }

    /// Whether the backend can drive the GPU.
    pub fn supports(&self, b: Backend) -> (r: bool)
        ensures
            r == self.tags.has(b),
    {
        self.tags.contains(b)
    }

    /// The number of the device in the backend's own order.
    pub fn backend_index(&self, b: Backend) -> (r: Option<usize>)
        ensures
            r == self.index_for(b),
    {
        match b {
            Backend::Vulkan => self.vulkan_index,
            Backend::Cuda => self.cuda_index,
            Backend::Rocm => self.rocm_index,
            Backend::Sycl => self.sycl_index,
        }
    }

    /// The name of the device for the backend.
    pub fn backend_device_name(&self, b: Backend) -> (r: Option<String>)
        ensures
            crate::text::option_text(r) == self.device_for(b),
    {
        match self.backend_index(b) {
            Some(i) => {
                let mut s = b.device_prefix().to_owned();
                let d = decimal_text(i as u64);
                s.append(d.as_str());
                Some(s)
            },
            None => None,
        }
    }
}

/// A percentage between one and a hundred.
pub open spec fn clamp_pct(p: int) -> int {
    if p < 1 {
        1
    } else if p > 100 {
        100
    } else {
        p
    }
}

/// A percentage between one and a hundred.
pub fn clamped_pct(p: u64) -> (r: u64)
    ensures
        r == clamp_pct(p as int),
        1 <= r <= 100,
{
    if p < 1 {
        1
    } else if p > 100 {
        100
    } else {
        p
    }
}

/// A share of a number, rounded down.
pub fn percent_of(n: u64, pct: u64) -> (r: u64)
    requires
        pct <= 100,
    ensures
        r == n * pct / 100,
{
    assert(n * pct <= u64::MAX * 100) by (nonlinear_arith)
        requires
            n <= u64::MAX,
            0 <= pct <= 100,
    ;
    assert(n * pct / 100 <= n) by (nonlinear_arith)
        requires
            0 <= pct <= 100,
            n >= 0,
    ;
    let wide: u128 = (n as u128) * (pct as u128);
    (wide / 100) as u64
}

} // verus!
