//! The CMake texts that a new project and a new component start from.

use vstd::prelude::*;
use crate::text::{to_owned, to_lower, str_contains, lower, contains};
use crate::cmake::platform::{HostOs, spec_arch_label, cmake_generator_platform_for_triplet, arch_label_for_triplet};

verus! {

/// The `CMakeLists.txt` of an ordinary component: an executable when
/// `src/main.cpp` exists, else a library, with the managed dependency block.
pub const COMPONENT_CMAKE_TEMPLATE: &'static str = "cmake_minimum_required(VERSION 3.30.1)
get_filename_component(_comp_name \"${CMAKE_CURRENT_SOURCE_DIR}\" NAME)

file(GLOB_RECURSE _triton_sources CONFIGURE_DEPENDS
  \"${CMAKE_CURRENT_SOURCE_DIR}/src/*.c\"
  \"${CMAKE_CURRENT_SOURCE_DIR}/src/*.cc\"
  \"${CMAKE_CURRENT_SOURCE_DIR}/src/*.cpp\"
  \"${CMAKE_CURRENT_SOURCE_DIR}/src/*.cxx\"
)

if(EXISTS \"${CMAKE_CURRENT_SOURCE_DIR}/src/main.cpp\")
  add_executable(${_comp_name} ${_triton_sources})
  set(_is_exe ON)
else()
  add_library(${_comp_name} ${_triton_sources})
  set(_is_exe OFF)
endif()

if(_is_exe)
  target_include_directories(${_comp_name} PRIVATE \"include\")
else()
  target_include_directories(${_comp_name} PUBLIC \"include\")
endif()

# ## triton:deps begin
# ## triton:deps end

if(_is_exe AND WIN32)
  add_custom_command(TARGET ${_comp_name} POST_BUILD
    COMMAND ${CMAKE_COMMAND} -E
      $<IF:$<BOOL:$<TARGET_RUNTIME_DLLS:${_comp_name}>>,copy_if_different,true>
      $<TARGET_RUNTIME_DLLS:${_comp_name}>
      $<$<BOOL:$<TARGET_RUNTIME_DLLS:${_comp_name}>>:$<TARGET_FILE_DIR:${_comp_name}>>
    COMMAND_EXPAND_LISTS
  )
endif()
";

/// The `CMakeLists.txt` of the `tests` component: one test executable
/// registered with CTest, with the managed dependency block.
pub const TEST_CMAKE_TEMPLATE: &'static str = "cmake_minimum_required(VERSION 3.30.1)
get_filename_component(_comp_name \"${CMAKE_CURRENT_SOURCE_DIR}\" NAME)

file(GLOB_RECURSE _triton_sources CONFIGURE_DEPENDS
  \"${CMAKE_CURRENT_SOURCE_DIR}/src/*.c\"
  \"${CMAKE_CURRENT_SOURCE_DIR}/src/*.cc\"
  \"${CMAKE_CURRENT_SOURCE_DIR}/src/*.cpp\"
  \"${CMAKE_CURRENT_SOURCE_DIR}/src/*.cxx\"
)

add_executable(${_comp_name} ${_triton_sources})
set(_is_exe ON)
target_include_directories(${_comp_name} PRIVATE \"include\")

# ## triton:deps begin
# ## triton:deps end

enable_testing()
add_test(NAME ${_comp_name} COMMAND ${_comp_name})
";

/// CMake helpers that the root `components/CMakeLists.txt` carries.
pub const CMAKE_ROOT_HELPERS: &'static str = "# Finds a vcpkg package in config mode and links its conventional target.
function(triton_find_vcpkg_and_link_strict target pkg)
  find_package(${pkg} CONFIG REQUIRED)
  if(TARGET ${pkg}::${pkg})
    target_link_libraries(${target} PRIVATE ${pkg}::${pkg})
  elseif(TARGET unofficial::${pkg}::${pkg})
    target_link_libraries(${target} PRIVATE unofficial::${pkg}::${pkg})
  elseif(TARGET ${pkg})
    target_link_libraries(${target} PRIVATE ${pkg})
  else()
    message(FATAL_ERROR \"Package '${pkg}' found but no target named '${pkg}::${pkg}' or '${pkg}'.\")
  endif()
endfunction()
";

/// The header of the root `components/CMakeLists.txt` of a new project.
pub const COMPONENTS_DIR_HEADER: &'static str = "cmake_minimum_required(VERSION 3.30.1)
project(triton_app LANGUAGES CXX)
";

/// Root components CMakeLists header (only `cmake_minimum_required()` and
/// `project()`).
pub fn components_dir_cmakelists() -> (res: String)
    ensures
        res@ == COMPONENTS_DIR_HEADER@,
{
    to_owned(COMPONENTS_DIR_HEADER)
}

/// Per-component CMakeLists template; `true` selects the one of the tests
/// component.
pub fn component_cmakelists(is_test: bool) -> (res: String)
    ensures
        res@ == (if is_test { TEST_CMAKE_TEMPLATE@ } else { COMPONENT_CMAKE_TEMPLATE@ }),
{
    if is_test {
        to_owned(TEST_CMAKE_TEMPLATE)
    } else {
        to_owned(COMPONENT_CMAKE_TEMPLATE)
    }
}

/// Helper block injected into the root components CMakeLists.
pub fn cmake_root_helpers() -> (res: &'static str)
    ensures
        res@ == CMAKE_ROOT_HELPERS@,
{
    CMAKE_ROOT_HELPERS
}

/// The `architecture` of the configure presets: set for a Visual Studio
/// generator on Windows, to the platform of the triplet.
pub fn presets_architecture(generator: &str, triplet: &str, os: HostOs) -> (res: Option<&'static str>)
    ensures
        res is Some <==> (os == HostOs::Windows && contains(lower(generator@), "visual studio"@)),
        res is Some ==> res->0@ == (if spec_arch_label(triplet@) == "x86"@ {
            "Win32"@
        } else if spec_arch_label(triplet@) == "arm64"@ {
            "ARM64"@
        } else {
            "x64"@
        }),
{
    if os == HostOs::Windows && str_contains(to_lower(generator).as_str(), "visual studio") {
        cmake_generator_platform_for_triplet(triplet, os)
    } else {
        None
    }
}

/// The display name and build directory of a preset for a configuration
/// (`Debug`/`debug`, `Release`/`release`) and an architecture label.
pub fn preset_names(config_title: &str, config_dir: &str, arch: &str) -> (res: (String, String))
    ensures
        res.0@ == config_title@ + " ("@ + arch@ + ")"@,
        res.1@ == "${sourceDir}/../build/"@ + arch@ + "/"@ + config_dir@,
{
    let display = crate::text::cat5(config_title, " (", arch, ")", "");
    proof {
        reveal_strlit("");
    }
    assert(display@ =~= config_title@ + " ("@ + arch@ + ")"@);
    let dir = crate::text::cat5("${sourceDir}/../build/", arch, "/", config_dir, "");
    assert(dir@ =~= "${sourceDir}/../build/"@ + arch@ + "/"@ + config_dir@);
    (display, dir)
}

} // verus!
