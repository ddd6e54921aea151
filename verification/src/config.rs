use vstd::prelude::*;

verus! {

/// The application's file layout: everything lives under one base
/// directory. Paths are plain strings; the surrounding program turns them
/// into filesystem paths.
#[derive(Debug)]
pub struct AppPaths {
    pub base_dir: String,
    pub db_path: String,
    pub images_dir: String,
    pub pid_file: String,
    pub log_file: String,
}

fn path_join(base: &str, name: &str) -> (r: String)
    ensures
        r@ == base@ + "/"@ + name@,
{
    let mut s = base.to_owned();
    s.append("/");
    s.append(name);
    s
}

impl AppPaths {
    /// Derive the whole layout from one base directory: the database, the
    /// image side-file directory, the pid file and the log file.
    pub fn from_base(base: String) -> (r: AppPaths)
        ensures
            r.base_dir@ == base@,
            r.db_path@ == base@ + "/"@ + "cb.db"@,
            r.images_dir@ == base@ + "/"@ + "images"@,
            r.pid_file@ == base@ + "/"@ + "cb.pid"@,
            r.log_file@ == base@ + "/"@ + "cb.log"@,
    {
        AppPaths {
            db_path: path_join(base.as_str(), "cb.db"),
            images_dir: path_join(base.as_str(), "images"),
            pid_file: path_join(base.as_str(), "cb.pid"),
            log_file: path_join(base.as_str(), "cb.log"),
            base_dir: base,
        }
    }
}

} // verus!
