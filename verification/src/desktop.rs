use vstd::prelude::*;
use crate::executors::{expand_home_spec, home_dir};
use crate::paths::{join, join_spec};
use crate::text::{owned, starts_with, str_eq, strip_prefix};

verus! {

/// Where a path shown in the desktop app points: `~/Draction` and what lies under it
/// are read in the base directory; another `~/` path in the home directory `home`.
pub open spec fn runtime_path_spec(path: Seq<char>, base: Seq<char>, home: Option<Seq<char>>) -> Seq<char> {
    if path == "~/Draction"@ {
        base
    } else if starts_with(path, "~/Draction/"@) {
        join_spec(base, path.subrange("~/Draction/"@.len() as int, path.len() as int))
    } else {
        expand_home_spec(path, home)
    }
}

/// Where `path` points, given the base directory and the home directory.
pub fn expand_runtime_path_with(path: &str, base: &str, home: Option<&str>) -> (r: String)
    ensures
        r@ == runtime_path_spec(path@, base@, match home { Some(h) => Some(h@), None => None }),
{
    if str_eq(path, "~/Draction") {
        return owned(base);
    }
    match strip_prefix(path, "~/Draction/") {
        Some(rest) => join(base, rest.as_str()),
        None => crate::executors::expand_home_with(path, home),
    }
}

/// Where `path` points, looking up the home directory for other `~/` paths.
pub fn expand_runtime_path(path: &str, base: &str) -> (r: String)
    ensures
        exists|h: Option<Seq<char>>| r@ == #[trigger] runtime_path_spec(path@, base@, h),
        !starts_with(path@, "~/"@) ==> r@ == path@,
{
    let needs_home = strip_prefix(path, "~/").is_some() && !str_eq(path, "~/Draction")
        && strip_prefix(path, "~/Draction/").is_none();
    let home = if needs_home {
        home_dir()
    } else {
        None
    };
    let r = match &home {
        Some(h) => expand_runtime_path_with(path, base, Some(h.as_str())),
        None => expand_runtime_path_with(path, base, None),
    };
    proof {
        let h = match home { Some(h) => Some(h@), None => None };
        assert(r@ == runtime_path_spec(path@, base@, h));
        if !starts_with(path@, "~/"@) {
            reveal_strlit("~/Draction");
            reveal_strlit("~/Draction/");
            reveal_strlit("~/");
            if path@ == "~/Draction"@ {
                assert(path@.subrange(0, 2) =~= "~/"@);
            }
            if starts_with(path@, "~/Draction/"@) {
                assert(path@.subrange(0, 2) =~= "~/"@);
            }
        }
    }
    r
}

/// What erasing the runtime data removes from the base directory, besides the history.
pub fn runtime_data_names() -> (r: Vec<&'static str>)
    ensures
        r@.map_values(|s: &'static str| s@) == seq![
            "settings.json"@, "rules.json"@, "workflows.json"@, "config.json"@, "Inbox"@, "Archive"@, "Work"@, "logs"@,
        ],
{
    let r = vec!["settings.json", "rules.json", "workflows.json", "config.json", "Inbox", "Archive", "Work", "logs"];
    proof {
        assert(r@.map_values(|s: &'static str| s@) =~= seq![
            "settings.json"@, "rules.json"@, "workflows.json"@, "config.json"@, "Inbox"@, "Archive"@, "Work"@, "logs"@,
        ]);
    }
    r
}

} // verus!
