//! Where the application keeps its data: its name, the name of its data
//! file, and the directory the file lies in.

use std::path::PathBuf;
use vstd::prelude::*;
use vstd::string::StringExecFns;

verus! {

/// `std::path::PathBuf`, carried through as it is.
#[verifier::external_type_specification]
#[verifier::external_body]
pub struct ExPathBuf(PathBuf);

/// Calls `dirs::data_dir`, which asks the system for the user's data
/// directory. Nothing is claimed of the result.
#[verifier::external_body]
fn system_data_dir() -> (r: Option<PathBuf>) {
    dirs::data_dir()
}

/// Calls `PathBuf::from` on a text. Nothing is claimed of the result.
#[verifier::external_body]
fn path_of(text: &str) -> (r: PathBuf) {
    PathBuf::from(text)
}

/// Calls `Path::join`, which appends `part` to `base` as the system joins
/// paths. Nothing is claimed of the result.
#[verifier::external_body]
fn path_join(base: &PathBuf, part: &str) -> (r: PathBuf) {
    base.join(part)
}

/// The settings of the application.
pub struct AppConfig {
    name: String,
    data_file: String,
    pub data_dir: PathBuf,
}

/// An [`AppConfig`] as mathematical values.
pub struct AppConfigView {
    pub name: Seq<char>,
    pub data_file: Seq<char>,
    pub data_dir: PathBuf,
}

impl View for AppConfig {
    type V = AppConfigView;

    closed spec fn view(&self) -> AppConfigView {
        AppConfigView { name: self.name@, data_file: self.data_file@, data_dir: self.data_dir }
    }
}

impl AppConfig {
    /// The settings of the application `name` with the data file
    /// `data_file`, in the directory `name` under the user's data directory,
    /// or under `.` where the system names none.
    pub fn new(name: &str, data_file: &str) -> (r: AppConfig)
        ensures
            r@.name == name@,
            r@.data_file == data_file@,
    {
        AppConfig::with_base(name, data_file, system_data_dir())
    }

    /// The settings of the application `name` with the data file
    /// `data_file`, in the directory `name` under `base`, or under `.` where
    /// `base` is `None`.
    pub fn with_base(name: &str, data_file: &str, base: Option<PathBuf>) -> (r: AppConfig)
        ensures
            r@.name == name@,
            r@.data_file == data_file@,
    {
        let base = match base {
            Some(dir) => dir,
            None => path_of("."),
        };
        AppConfig {
            name: String::from_str(name),
            data_file: String::from_str(data_file),
            data_dir: path_join(&base, name),
        }
    }

    /// The name of the application.
    pub fn name(&self) -> (r: &str)
        ensures
            r@ == self@.name,
    {
        self.name.as_str()
    }

    /// The name of the data file.
    pub fn data_file(&self) -> (r: &str)
        ensures
            r@ == self@.data_file,
    {
        self.data_file.as_str()
    }

    /// The path of the data file: the data directory, then the file's name.
    pub fn data_file_path(&self) -> (r: PathBuf) {
        path_join(&self.data_dir, self.data_file.as_str())
    }

    /// The directory that holds the data file.
    pub fn data_dir(&self) -> (r: &PathBuf)
        ensures
            *r == self@.data_dir,
    {
        &self.data_dir
    }
}

} // verus!
