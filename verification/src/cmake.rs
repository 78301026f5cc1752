//! CMake side of the project: versions, platforms and triplets, and the
//! generated CMake text.

pub mod version;
pub mod platform;
pub mod resolution;
pub mod generators;
pub mod staging;
pub mod rewrite;
pub mod languages;
pub mod settings;

pub use version::{parse_cmake_version, effective_cmake_version, MIN_CMAKE_VERSION};
pub use platform::{
    dep_is_active, detect_vcpkg_triplet, detect_vcpkg_triplet_for_arch, host_default_arch,
    normalize_target_arch, arch_label_for_triplet, cmake_generator_platform_for_triplet, HostOs,
    HostCpu,
};
