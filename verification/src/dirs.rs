//! The application's on-disk layout, computed from a home directory handed
//! in by the caller; creating the directories is the caller's I/O.

use vstd::prelude::*;

verus! {

/// The application's home directory under the user's home.
pub fn app_home_dir(home_dir: &str) -> (r: String)
    ensures
        r@ == home_dir@ + "/.config/lark"@,
{
    let mut out = home_dir.to_owned();
    out.append("/.config/lark");
    out
}

/// The log directory.
pub fn app_logs_dir(home_dir: &str) -> (r: String)
    ensures
        r@ == home_dir@ + "/.config/lark/logs"@,
{
    let mut out = app_home_dir(home_dir);
    out.append("/logs");
    proof {
        assert(out@ =~= home_dir@ + "/.config/lark/logs"@) by {
            reveal_strlit("/.config/lark");
            reveal_strlit("/logs");
            reveal_strlit("/.config/lark/logs");
        }
    }
    out
}

/// The configuration file's path.
pub fn config_path(home_dir: &str) -> (r: String)
    ensures
        r@ == home_dir@ + "/.config/lark/config.json"@,
{
    let mut out = app_home_dir(home_dir);
    out.append("/config.json");
    proof {
        assert(out@ =~= home_dir@ + "/.config/lark/config.json"@) by {
            reveal_strlit("/.config/lark");
            reveal_strlit("/config.json");
            reveal_strlit("/.config/lark/config.json");
        }
    }
    out
}

/// The data directory, where the record and index stores persist.
pub fn app_data_dir(home_dir: &str) -> (r: String)
    ensures
        r@ == home_dir@ + "/.config/lark/data"@,
{
    let mut out = app_home_dir(home_dir);
    out.append("/data");
    proof {
        assert(out@ =~= home_dir@ + "/.config/lark/data"@) by {
            reveal_strlit("/.config/lark");
            reveal_strlit("/data");
            reveal_strlit("/.config/lark/data");
        }
    }
    out
}

/// The plugin directory under the data directory.
pub fn app_plugins_dir(home_dir: &str) -> (r: String)
    ensures
        r@ == home_dir@ + "/.config/lark/data/plugins"@,
{
    let mut out = app_data_dir(home_dir);
    out.append("/plugins");
    proof {
        assert(out@ =~= home_dir@ + "/.config/lark/data/plugins"@) by {
            reveal_strlit("/.config/lark/data");
            reveal_strlit("/plugins");
            reveal_strlit("/.config/lark/data/plugins");
        }
    }
    out
}

/// The directory clipboard images are exported to, under the data
/// directory.
pub fn app_clipboard_img_dir(home_dir: &str) -> (r: String)
    ensures
        r@ == home_dir@ + "/.config/lark/data/clipboardImg"@,
{
    let mut out = app_data_dir(home_dir);
    out.append("/clipboardImg");
    proof {
        assert(out@ =~= home_dir@ + "/.config/lark/data/clipboardImg"@) by {
            reveal_strlit("/.config/lark/data");
            reveal_strlit("/clipboardImg");
            reveal_strlit("/.config/lark/data/clipboardImg");
        }
    }
    out
}

/// The named application directories, as (name, path) pairs: logs, data,
/// plugins, and the clipboard image export directory.
pub fn get_app_dir(home_dir: &str) -> (r: Vec<(String, String)>)
    ensures
        r@.len() == 4,
        r@[0].0@ == "log"@ && r@[0].1@ == home_dir@ + "/.config/lark/logs"@,
        r@[1].0@ == "data"@ && r@[1].1@ == home_dir@ + "/.config/lark/data"@,
        r@[2].0@ == "plugins"@ && r@[2].1@ == home_dir@ + "/.config/lark/data/plugins"@,
        r@[3].0@ == "clipboardImg"@ && r@[3].1@ == home_dir@ + "/.config/lark/data/clipboardImg"@,
{
    let mut out: Vec<(String, String)> = Vec::new();
    out.push(("log".to_owned(), app_logs_dir(home_dir)));
    out.push(("data".to_owned(), app_data_dir(home_dir)));
    out.push(("plugins".to_owned(), app_plugins_dir(home_dir)));
    out.push(("clipboardImg".to_owned(), app_clipboard_img_dir(home_dir)));
    out
}

} // verus!
