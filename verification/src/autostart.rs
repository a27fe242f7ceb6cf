//! Starting the tray with Windows, by a script in the user's startup folder.

use crate::text::chars_of;
use crate::wire::opt_text;
use vstd::prelude::*;

verus! {

/// A name in a folder, as paths are written on Windows: a backslash goes between, unless
/// the folder is empty, ends in a separator, or is a drive alone.
pub open spec fn in_folder(folder: Seq<char>, name: Seq<char>) -> Seq<char> {
    if folder.len() == 0 || folder.last() == '\\' || folder.last() == '/' || is_drive(folder) {
        folder + name
    } else {
        folder.push('\\') + name
    }
}

/// A drive alone: a letter and a colon.
pub open spec fn is_drive(p: Seq<char>) -> bool {
    p.len() == 2 && p[1] == ':' && (('a' <= p[0] && p[0] <= 'z') || ('A' <= p[0] && p[0] <= 'Z'))
}

fn join_folder(folder: &str, name: &str) -> (res: String)
    ensures
        res@ == in_folder(folder@, name@),
{
    let cs = chars_of(folder);
    let n = cs.len();
    let mut out = folder.to_string();
    if n == 0 || cs[n - 1] == '\\' || cs[n - 1] == '/' {
    } else if n == 2 && cs[1] == ':' && (('a' <= cs[0] && cs[0] <= 'z') || ('A' <= cs[0] && cs[0]
        <= 'Z')) {
    } else {
        out.push('\\');
    }
    out.append(name);
    assert(out@ =~= in_folder(folder@, name@));
    out
}

/// The user's startup folder, given the folder for programs' data.
pub open spec fn startup(appdata: Seq<char>) -> Seq<char> {
    in_folder(
        in_folder(
            in_folder(in_folder(in_folder(appdata, "Microsoft"@), "Windows"@), "Start Menu"@),
            "Programs"@,
        ),
        "Startup"@,
    )
}

/// The user's startup folder, given `APPDATA`.
pub fn startup_dir(appdata: Option<&str>) -> (res: Option<String>)
    ensures
        opt_text(res) == match appdata {
            Some(a) => Some(startup(a@)),
            None => None,
        },
{
    match appdata {
        Some(a) => {
            let microsoft = join_folder(a, "Microsoft");
            let windows = join_folder(microsoft.as_str(), "Windows");
            let menu = join_folder(windows.as_str(), "Start Menu");
            let programs = join_folder(menu.as_str(), "Programs");
            Some(join_folder(programs.as_str(), "Startup"))
        },
        None => None,
    }
}

/// The script that starts the tray, given `APPDATA`.
pub fn autostart_script_path(appdata: Option<&str>) -> (res: Option<String>)
    ensures
        opt_text(res) == match appdata {
            Some(a) => Some(in_folder(startup(a@), "multicliprelay-ui-tray.cmd"@)),
            None => None,
        },
{
    match startup_dir(appdata) {
        Some(d) => Some(join_folder(d.as_str(), "multicliprelay-ui-tray.cmd")),
        None => None,
    }
}

/// Whether the tray starts with Windows. `script_exists` tells whether the script is
/// there, where its path is known.
pub fn is_enabled(script_exists: Option<bool>) -> (res: bool)
    ensures
        res == (script_exists == Some(true)),
{
    match script_exists {
        Some(b) => b,
        None => false,
    }
}

/// The script: it starts the program in a window out of the way.
pub fn autostart_script(exe: &str) -> (res: String)
    ensures
        res@ == "@echo off\r\nstart \"\" /min \""@ + exe@ + "\"\r\n"@,
{
    let mut out = "@echo off\r\nstart \"\" /min \"".to_string();
    out.append(exe);
    out.append("\"\r\n");
    out
}

/// The startup folder is the one in the start menu of the folder for programs' data.
pub proof fn law_startup_folder(appdata: Seq<char>)
    requires
        appdata.len() > 2,
        appdata.last() != '\\',
        appdata.last() != '/',
    ensures
        startup(appdata) == appdata + "\\Microsoft\\Windows\\Start Menu\\Programs\\Startup"@,
        in_folder(startup(appdata), "multicliprelay-ui-tray.cmd"@) == startup(appdata).push('\\')
            + "multicliprelay-ui-tray.cmd"@,
{
    reveal_strlit("Microsoft");
    reveal_strlit("Windows");
    reveal_strlit("Start Menu");
    reveal_strlit("Programs");
    reveal_strlit("Startup");
    reveal_strlit("\\Microsoft\\Windows\\Start Menu\\Programs\\Startup");
    let all = "\\Microsoft\\Windows\\Start Menu\\Programs\\Startup"@;
    let a = appdata.push('\\') + "Microsoft"@;
    assert(in_folder(appdata, "Microsoft"@) == a);
    let b = a.push('\\') + "Windows"@;
    assert(in_folder(a, "Windows"@) == b);
    let c = b.push('\\') + "Start Menu"@;
    assert(in_folder(b, "Start Menu"@) == c);
    let d = c.push('\\') + "Programs"@;
    assert(in_folder(c, "Programs"@) == d);
    let e = d.push('\\') + "Startup"@;
    assert(in_folder(d, "Startup"@) == e);
    assert(e =~= appdata + all);
}

/// A name in a folder follows the folder, with one separator between the two, and none behind
/// a drive alone.
pub proof fn law_a_name_in_a_folder(folder: Seq<char>, name: Seq<char>, letter: char)
    ensures
        in_folder(folder.push('\\'), name) == folder.push('\\') + name,
        in_folder(folder.push('/'), name) == folder.push('/') + name,
        folder.len() > 2 && folder.last() != '\\' && folder.last() != '/' ==> in_folder(folder, name)
            == in_folder(folder.push('\\'), name),
        ('a' <= letter && letter <= 'z') || ('A' <= letter && letter <= 'Z') ==> in_folder(
            seq![letter, ':'],
            name,
        ) == seq![letter, ':'] + name,
{
}

} // verus!
