//! Where the program keeps its data and where it looks for the engine.
use vstd::prelude::*;
use vstd::string::*;

use crate::text::{chars_of, is_ascii_alpha};

verus! {

/// A path separator on Windows.
pub open spec fn is_separator(c: char) -> bool {
    c == '\\' || c == '/'
}

/// A bare drive prefix such as `C:`.
pub open spec fn is_drive_only(p: Seq<char>) -> bool {
    p.len() == 2 && is_ascii_alpha(p[0]) && p[1] == ':'
}

/// `name` appended to the directory `base` as `PathBuf::join` does on Windows for a relative
/// name: with a backslash between them unless `base` is empty, already ends in a separator, or
/// is a bare drive prefix.
pub open spec fn join_path(base: Seq<char>, name: Seq<char>) -> Seq<char> {
    if base.len() == 0 || is_separator(base.last()) || is_drive_only(base) {
        base + name
    } else {
        base + seq!['\\'] + name
    }
}

/// `name` appended to the directory `base`.
pub fn join(base: &str, name: &str) -> (res: String)
    ensures
        res@ == join_path(base@, name@),
{
    let chars = chars_of(base);
    let n = chars.len();
    let bare_drive = n == 2 && (('a' <= chars[0] && chars[0] <= 'z') || ('A' <= chars[0]
        && chars[0] <= 'Z')) && chars[1] == ':';
    let mut out = String::new();
    out.append(base);
    if !(n == 0 || chars[n - 1] == '\\' || chars[n - 1] == '/' || bare_drive) {
        out.append("\\");
    }
    out.append(name);
    proof {
        reveal_strlit("\\");
    }
    out
}

/// The directories and files the program uses.
#[derive(Debug, Clone)]
pub struct AppPaths {
    pub exe_dir: String,
    pub data_dir: String,
    pub config_file: String,
    pub log_dir: String,
}

/// How the engine is started: an executable, or a library run by `dotnet`.
#[derive(Debug, Clone)]
pub enum EngineLaunch {
    Executable(String),
    DotnetDll(String),
}

impl View for EngineLaunch {
    /// Whether it is run by `dotnet`, and its path.
    type V = (bool, Seq<char>);

    open spec fn view(&self) -> (bool, Seq<char>) {
        match self {
            EngineLaunch::Executable(p) => (false, p@),
            EngineLaunch::DotnetDll(p) => (true, p@),
        }
    }
}

/// The `k`-th place the engine is looked for, in order: `engine\Smbn.Engine.exe` and
/// `Smbn.Engine.exe` beside the program, then `engine\Smbn.Engine.dll` and `Smbn.Engine.dll`.
pub open spec fn engine_candidate(exe_dir: Seq<char>, k: int) -> (bool, Seq<char>) {
    if k == 0 {
        (false, join_path(join_path(exe_dir, "engine"@), "Smbn.Engine.exe"@))
    } else if k == 1 {
        (false, join_path(exe_dir, "Smbn.Engine.exe"@))
    } else if k == 2 {
        (true, join_path(join_path(exe_dir, "engine"@), "Smbn.Engine.dll"@))
    } else {
        (true, join_path(exe_dir, "Smbn.Engine.dll"@))
    }
}

/// The data directory: `data` beside the program in portable mode, otherwise `Smbn` under the
/// local application data directory (or beside the program when that is unknown).
pub open spec fn data_dir_for(exe_dir: Seq<char>, portable: bool, local_app_data: Option<Seq<char>>) -> Seq<
    char,
> {
    if portable {
        join_path(exe_dir, "data"@)
    } else {
        match local_app_data {
            Some(base) => join_path(base, "Smbn"@),
            None => join_path(exe_dir, "Smbn"@),
        }
    }
}

impl AppPaths {
    /// The paths for a program in `exe_dir`: the data directory, `config.json` and `logs` in it.
    pub fn from_locations(exe_dir: String, portable: bool, local_app_data: Option<String>) -> (res:
        Self)
        ensures
            res.exe_dir@ == exe_dir@,
            res.data_dir@ == data_dir_for(
                exe_dir@,
                portable,
                match local_app_data {
                    Some(s) => Some(s@),
                    None => None,
                },
            ),
            res.config_file@ == join_path(res.data_dir@, "config.json"@),
            res.log_dir@ == join_path(res.data_dir@, "logs"@),
    {
        let data_dir = if portable {
            join(exe_dir.as_str(), "data")
        } else {
            match &local_app_data {
                Some(base) => join(base.as_str(), "Smbn"),
                None => join(exe_dir.as_str(), "Smbn"),
            }
        };
        let log_dir = join(data_dir.as_str(), "logs");
        let config_file = join(data_dir.as_str(), "config.json");
        AppPaths { exe_dir, data_dir, config_file, log_dir }
    }

    /// The places the engine is looked for, in order.
    pub fn engine_candidates(&self) -> (res: Vec<EngineLaunch>)
        ensures
            res@.len() == 4,
            forall|k: int| 0 <= k < 4 ==> (#[trigger] res@[k])@ == engine_candidate(self.exe_dir@, k),
    {
        let engine_dir = join(self.exe_dir.as_str(), "engine");
        let mut out: Vec<EngineLaunch> = Vec::new();
        out.push(EngineLaunch::Executable(join(engine_dir.as_str(), "Smbn.Engine.exe")));
        out.push(EngineLaunch::Executable(join(self.exe_dir.as_str(), "Smbn.Engine.exe")));
        out.push(EngineLaunch::DotnetDll(join(engine_dir.as_str(), "Smbn.Engine.dll")));
        out.push(EngineLaunch::DotnetDll(join(self.exe_dir.as_str(), "Smbn.Engine.dll")));
        out
    }

    /// The first place the engine is found, given for each of the `engine_candidates` whether a
    /// file is there.
    pub fn engine_executable(&self, present: &Vec<bool>) -> (res: Option<EngineLaunch>)
        requires
            present@.len() == 4,
        ensures
            res is None <==> (forall|k: int| 0 <= k < 4 ==> !#[trigger] present@[k]),
            res matches Some(launch) ==> exists|k: int|
                0 <= k < 4 && #[trigger] present@[k] && (forall|j: int| 0 <= j < k ==> !present@[j])
                    && launch@ == engine_candidate(self.exe_dir@, k),
    {
        let mut candidates = self.engine_candidates();
        let mut k: usize = 0;
        while k < 4
            invariant
                k <= 4,
                present@.len() == 4,
                candidates@.len() == 4,
                forall|i: int|
                    0 <= i < 4 ==> (#[trigger] candidates@[i])@ == engine_candidate(self.exe_dir@, i),
                forall|j: int| 0 <= j < k ==> !present@[j],
            decreases 4 - k,
        {
            if present[k] {
                let launch = candidates.remove(k);
                return Some(launch);
            }
            k = k + 1;
        }
        None
    }
}

} // verus!
