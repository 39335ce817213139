//! The platform directory resolver: for each supported operating-system
//! family, the ordered list of candidate font directories, as a pure
//! function of the home directory and of the environment values that govern
//! it.  User-scope directories come before system-scope ones.

use vstd::prelude::*;

use crate::sys;
use crate::text::join;
use crate::text::join_path;
use crate::text::split_at_char;
use crate::text::split_path_list;

verus! {

/// The candidate directories on a macOS host: the user's font directory
/// when the home directory is known, then the fixed system directories and
/// the system's font asset cache.
pub open spec fn macos_font_dir_list(home: Option<Seq<char>>) -> Seq<Seq<char>> {
    (match home {
        Some(h) => seq![join_path(h, "Library/Fonts/"@)],
        None => seq![],
    }) + seq![
        "/Library/Fonts/"@,
        "/System/Library/Fonts/"@,
        "/System/Library/Fonts/Supplemental"@,
        "/System/Library/AssetsV2/com_apple_MobileAsset_Font7/3419f2a427639ad8c8e139149a287865a90fa17e.asset/AssetData"@,
    ]
}

/// The candidate directories on a Linux host: the two user-scope
/// directories when the home directory is known, the two fixed system
/// directories, the `fonts` directory under `XDG_DATA_HOME` when that is
/// set and non-empty, and the `fonts` directory under each entry of
/// `XDG_DATA_DIRS` when that is set.
pub open spec fn linux_font_dir_list(
    home: Option<Seq<char>>,
    xdg_data_home: Option<Seq<char>>,
    xdg_data_dirs: Option<Seq<char>>,
) -> Seq<Seq<char>> {
    (match home {
        Some(h) => seq![join_path(h, ".fonts/"@), join_path(h, ".local/share/fonts/"@)],
        None => seq![],
    }) + seq!["/usr/share/fonts/"@, "/usr/local/share/fonts/"@] + (match xdg_data_home {
        Some(x) => if x.len() > 0 {
            seq![join_path(x, "fonts"@)]
        } else {
            seq![]
        },
        None => seq![],
    }) + (match xdg_data_dirs {
        Some(x) => split_at_char(x, ':').map_values(|p: Seq<char>| join_path(p, "fonts"@)),
        None => seq![],
    })
}

/// The candidate directories on a Windows host: the `Fonts` directory under
/// `windir`, then the user's font directory under `localappdata`.
pub open spec fn windows_font_dir_list(windir: Seq<char>, localappdata: Seq<char>) -> Seq<
    Seq<char>,
> {
    seq![
        join_path(windir, "Fonts"@),
        join_path(join_path(join_path(localappdata, "Microsoft"@), "Windows"@), "Fonts"@),
    ]
}

/// The macOS candidate directories, for the given home directory.
pub fn get_macos_sys_font_dirs(home: Option<String>) -> (r: Vec<String>)
    ensures
        r.deep_view() == macos_font_dir_list(home.deep_view()),
        r@.len() >= 4,
{
    let mut dirs: Vec<String> = Vec::new();
    match &home {
        Some(h) => {
            dirs.push(join(h.as_str(), "Library/Fonts/"));
        },
        None => {},
    }
    dirs.push("/Library/Fonts/".to_owned());
    dirs.push("/System/Library/Fonts/".to_owned());
    dirs.push("/System/Library/Fonts/Supplemental".to_owned());
    dirs.push(
        "/System/Library/AssetsV2/com_apple_MobileAsset_Font7/3419f2a427639ad8c8e139149a287865a90fa17e.asset/AssetData".to_owned(),
    );
    proof {
        assert(dirs.deep_view() =~= macos_font_dir_list(home.deep_view()));
    }
    dirs
}

/// The Linux candidate directories, for the given home directory and XDG
/// environment values.
pub fn get_linux_sys_font_dirs(
    home: Option<String>,
    xdg_data_home: Option<String>,
    xdg_data_dirs: Option<String>,
) -> (r: Vec<String>)
    ensures
        r.deep_view() == linux_font_dir_list(
            home.deep_view(),
            xdg_data_home.deep_view(),
            xdg_data_dirs.deep_view(),
        ),
        r@.len() >= 2,
{
    let mut dirs: Vec<String> = Vec::new();
    match &home {
        Some(h) => {
            dirs.push(join(h.as_str(), ".fonts/"));
            dirs.push(join(h.as_str(), ".local/share/fonts/"));
        },
        None => {},
    }
    dirs.push("/usr/share/fonts/".to_owned());
    dirs.push("/usr/local/share/fonts/".to_owned());
    match &xdg_data_home {
        Some(x) => {
            if x.as_str().unicode_len() > 0 {
                dirs.push(join(x.as_str(), "fonts"));
            }
        },
        None => {},
    }
    let ghost base = dirs.deep_view();
    proof {
        assert(base =~= (match home.deep_view() {
            Some(h) => seq![join_path(h, ".fonts/"@), join_path(h, ".local/share/fonts/"@)],
            None => seq![],
        }) + seq!["/usr/share/fonts/"@, "/usr/local/share/fonts/"@] + (
        match xdg_data_home.deep_view() {
            Some(x) => if x.len() > 0 {
                seq![join_path(x, "fonts"@)]
            } else {
                seq![]
            },
            None => seq![],
        }));
    }
    match &xdg_data_dirs {
        Some(x) => {
            let parts = split_path_list(x.as_str());
            let mut j: usize = 0;
            while j < parts.len()
                invariant
                    j <= parts.len(),
                    parts.deep_view() == split_at_char(x@, ':'),
                    dirs.deep_view() =~= base + parts.deep_view().subrange(
                        0,
                        j as int,
                    ).map_values(|p: Seq<char>| join_path(p, "fonts"@)),
                decreases parts.len() - j,
            {
                let ghost prev = dirs.deep_view();
                dirs.push(join(parts[j].as_str(), "fonts"));
                proof {
                    assert(dirs.deep_view() =~= prev.push(
                        join_path(parts.deep_view()[j as int], "fonts"@),
                    ));
                    assert(parts.deep_view().subrange(0, (j + 1) as int).map_values(
                        |p: Seq<char>| join_path(p, "fonts"@),
                    ) =~= parts.deep_view().subrange(0, j as int).map_values(
                        |p: Seq<char>| join_path(p, "fonts"@),
                    ).push(join_path(parts.deep_view()[j as int], "fonts"@)));
                }
                j += 1;
            }
            proof {
                assert(parts.deep_view().subrange(0, parts@.len() as int) =~= parts.deep_view());
                assert(dirs.deep_view() =~= linux_font_dir_list(
                    home.deep_view(),
                    xdg_data_home.deep_view(),
                    xdg_data_dirs.deep_view(),
                ));
            }
        },
        None => {
            proof {
                assert(dirs.deep_view() =~= linux_font_dir_list(
                    home.deep_view(),
                    xdg_data_home.deep_view(),
                    xdg_data_dirs.deep_view(),
                ));
            }
        },
    }
    dirs
}

/// The Windows candidate directories, for the given values of the `windir`
/// and `localappdata` environment variables.  Windows gives no best-effort
/// fallback: when either value is missing the resolution fails, and the
/// caller is told so by an absent result.
pub fn get_windows_sys_font_dirs(windir: Option<String>, localappdata: Option<String>) -> (r:
    Option<Vec<String>>)
    ensures
        r is Some <==> (windir is Some && localappdata is Some),
        r matches Some(v) ==> v.deep_view() == windows_font_dir_list(
            windir->0@,
            localappdata->0@,
        ) && v@.len() == 2,
{
    match (windir, localappdata) {
        (Some(w), Some(l)) => {
            let mut dirs: Vec<String> = Vec::new();
            dirs.push(join(w.as_str(), "Fonts"));
            let sub = join(l.as_str(), "Microsoft");
            let sub = join(sub.as_str(), "Windows");
            dirs.push(join(sub.as_str(), "Fonts"));
            proof {
                assert(dirs.deep_view() =~= windows_font_dir_list(w@, l@));
            }
            Some(dirs)
        },
        _ => None,
    }
}

/// Every supported platform yields candidate directories, whatever the
/// environment holds: the fixed system directories are always on the list,
/// so the list is never empty.
pub proof fn lemma_font_dir_lists_nonempty(
    home: Option<Seq<char>>,
    xdg_data_home: Option<Seq<char>>,
    xdg_data_dirs: Option<Seq<char>>,
    windir: Seq<char>,
    localappdata: Seq<char>,
)
    ensures
        linux_font_dir_list(home, xdg_data_home, xdg_data_dirs).len() >= 2,
        linux_font_dir_list(home, xdg_data_home, xdg_data_dirs).contains("/usr/share/fonts/"@),
        macos_font_dir_list(home).len() >= 4,
        macos_font_dir_list(home).contains("/Library/Fonts/"@),
        windows_font_dir_list(windir, localappdata).len() == 2,
{
    let l = linux_font_dir_list(home, xdg_data_home, xdg_data_dirs);
    match home {
        Some(h) => {
            assert(l[2] == "/usr/share/fonts/"@);
        },
        None => {
            assert(l[0] == "/usr/share/fonts/"@);
        },
    }
    let m = macos_font_dir_list(home);
    match home {
        Some(h) => {
            assert(m[1] == "/Library/Fonts/"@);
        },
        None => {
            assert(m[0] == "/Library/Fonts/"@);
        },
    }
}

/// The candidate font directories of this host, from the platform's
/// user-profile lookup, with the XDG environment overrides left to callers
/// that read them (they can hand them to `get_linux_sys_font_dirs`).
pub fn get_sys_font_dirs() -> (r: Vec<String>)
    ensures
        exists|home: Option<Seq<char>>|
            r.deep_view() == linux_font_dir_list(
                home,
                Option::<Seq<char>>::None,
                Option::<Seq<char>>::None,
            ),
        r@.len() >= 2,
        r.deep_view().contains("/usr/share/fonts/"@),
{
    let home = sys::home_dir();
    let r = get_linux_sys_font_dirs(home, None, None);
    proof {
        assert(r.deep_view() == linux_font_dir_list(
            home.deep_view(),
            Option::<Seq<char>>::None,
            Option::<Seq<char>>::None,
        ));
        lemma_font_dir_lists_nonempty(
            home.deep_view(),
            Option::<Seq<char>>::None,
            Option::<Seq<char>>::None,
            Seq::<char>::empty(),
            Seq::<char>::empty(),
        );
    }
    r
}

/// The first candidate directory that exists on disk, if any does.  The
/// result is always a member of the candidate list.
pub fn get_sys_font_dir() -> (r: Option<String>)
    ensures
        r matches Some(p) ==> exists|home: Option<Seq<char>>|
            linux_font_dir_list(
                home,
                Option::<Seq<char>>::None,
                Option::<Seq<char>>::None,
            ).contains(p@),
{
    let dirs = get_sys_font_dirs();
    let ghost h = choose|home: Option<Seq<char>>|
        dirs.deep_view() == linux_font_dir_list(
            home,
            Option::<Seq<char>>::None,
            Option::<Seq<char>>::None,
        );
    let mut i: usize = 0;
    while i < dirs.len()
        invariant
            i <= dirs@.len(),
            dirs.deep_view() == linux_font_dir_list(
                h,
                Option::<Seq<char>>::None,
                Option::<Seq<char>>::None,
            ),
        decreases dirs@.len() - i,
    {
        if sys::path_exists(dirs[i].as_str()) {
            let p = dirs[i].clone();
            proof {
                assert(linux_font_dir_list(
                    h,
                    Option::<Seq<char>>::None,
                    Option::<Seq<char>>::None,
                )[i as int] == p@);
            }
            return Some(p);
        }
        i += 1;
    }
    None
}

} // verus!
