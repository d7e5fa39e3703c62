//! The run configuration: an immutable options struct handed to the detector
//! and the planner, and the runtime mode selector.

use vstd::prelude::*;
use vstd::string::StringExecFns;

use crate::paths::clone_string_vec;

verus! {

/// How the surrounding process drives the pipeline.
#[derive(Clone, Copy, PartialEq, Eq, Structural, Debug)]
pub enum RuntimeType {
    Console,
    Service,
    Batch,
}

impl RuntimeType {
    /// The lower-case name of the mode, for display.
    pub fn display_name(&self) -> (r: String)
        ensures
            self is Console ==> r@ == "console"@,
            self is Service ==> r@ == "service"@,
            self is Batch ==> r@ == "batch"@,
    {
        match self {
            RuntimeType::Console => String::from_str("console"),
            RuntimeType::Service => String::from_str("service"),
            RuntimeType::Batch => String::from_str("batch"),
        }
    }
}

impl core::str::FromStr for RuntimeType {
    type Err = &'static str;

    fn from_str(s: &str) -> Result<Self, Self::Err> {
        let v = s.to_owned();
        if v.eq(&"Console".to_owned()) {
            Ok(RuntimeType::Console)
        } else if v.eq(&"Service".to_owned()) {
            Ok(RuntimeType::Service)
        } else if v.eq(&"Batch".to_owned()) {
            Ok(RuntimeType::Batch)
        } else {
            Err("No match")
        }
    }
}

/// The mathematical view of the configuration.
#[verifier::ext_equal]
pub struct OptionsView {
    pub runtime: RuntimeType,
    pub source_directory: Seq<char>,
    pub target_directories: Seq<Seq<char>>,
    pub check_time: u64,
    pub enable_deletes: bool,
    pub skip_folders: Seq<Seq<char>>,
    pub extensions: Seq<Seq<char>>,
    pub use_config_file: bool,
    pub update_compare_modified: bool,
    pub update_compare_size: bool,
    pub update_compare_md5: bool,
}

/// The configuration of one run: the roots, the filters, and the comparison
/// strategy toggles.
pub struct ProgramOptions {
    pub runtime: RuntimeType,
    pub source_directory: String,
    pub target_directories: Vec<String>,
    pub check_time: u64,
    pub enable_deletes: bool,
    pub skip_folders: Vec<String>,
    pub extensions: Vec<String>,
    pub use_config_file: bool,
    pub update_compare_modified: bool,
    pub update_compare_size: bool,
    pub update_compare_md5: bool,
}

impl View for ProgramOptions {
    type V = OptionsView;

    open spec fn view(&self) -> OptionsView {
        OptionsView {
            runtime: self.runtime,
            source_directory: self.source_directory@,
            target_directories: self.target_directories@.map_values(|s: String| s@),
            check_time: self.check_time,
            enable_deletes: self.enable_deletes,
            skip_folders: self.skip_folders@.map_values(|s: String| s@),
            extensions: self.extensions@.map_values(|s: String| s@),
            use_config_file: self.use_config_file,
            update_compare_modified: self.update_compare_modified,
            update_compare_size: self.update_compare_size,
            update_compare_md5: self.update_compare_md5,
        }
    }
}

impl Clone for ProgramOptions {
    /// Cloning preserves the configuration's view.
    fn clone(&self) -> (r: Self)
        ensures
            r@ == self@,
    {
        let r = ProgramOptions {
            runtime: self.runtime,
            source_directory: self.source_directory.clone(),
            target_directories: clone_string_vec(&self.target_directories),
            check_time: self.check_time,
            enable_deletes: self.enable_deletes,
            skip_folders: clone_string_vec(&self.skip_folders),
            extensions: clone_string_vec(&self.extensions),
            use_config_file: self.use_config_file,
            update_compare_modified: self.update_compare_modified,
            update_compare_size: self.update_compare_size,
            update_compare_md5: self.update_compare_md5,
        };
        proof {
            assert(r@ =~= self@);
        }
        r
    }
}

impl ProgramOptions {
    /// The source root.
    pub fn get_source_directory(&self) -> (r: String)
        ensures
            r@ == self@.source_directory,
    {
        self.source_directory.clone()
    }

    /// The target roots.
    pub fn get_target_directories(&self) -> (r: Vec<String>)
        ensures
            r@.map_values(|s: String| s@) == self@.target_directories,
    {
        let r = clone_string_vec(&self.target_directories);
        proof {
            assert(r@.map_values(|s: String| s@) =~= self@.target_directories);
        }
        r
    }

    /// The configured skip folders.
    pub fn get_skip_folders(&self) -> (r: Vec<String>)
        ensures
            r@.map_values(|s: String| s@) == self@.skip_folders,
    {
        let r = clone_string_vec(&self.skip_folders);
        proof {
            assert(r@.map_values(|s: String| s@) =~= self@.skip_folders);
        }
        r
    }
}

} // verus!
