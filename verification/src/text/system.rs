//! Where a system keeps its fonts.

use vstd::prelude::*;
use vstd::string::*;

verus! {

/// The systems whose font directories are known.
#[derive(Debug, Clone, Copy, PartialEq, Eq, Structural)]
pub enum Os {
    MacOs,
    Linux,
    Windows,
    Other,
}

/// A directory: a path of its own, or one under the user's home.
#[derive(Debug)]
pub enum FontDir {
    At(String),
    UnderHome(String),
}

/// The mathematical reading of a [`FontDir`].
pub enum FontDirV {
    At(Seq<char>),
    UnderHome(Seq<char>),
}

impl View for FontDir {
    type V = FontDirV;

    open spec fn view(&self) -> FontDirV {
        match *self {
            FontDir::At(s) => FontDirV::At(s@),
            FontDir::UnderHome(s) => FontDirV::UnderHome(s@),
        }
    }
}

pub open spec fn dirs_view(v: Seq<FontDir>) -> Seq<FontDirV> {
    v.map_values(|d: FontDir| d@)
}

/// The system's own directories.
pub open spec fn own_dirs(os: Os, windir: Option<Seq<char>>) -> Seq<FontDirV> {
    match os {
        Os::MacOs => seq![
            FontDirV::At("/System/Library/Fonts"@),
            FontDirV::At("/System/Library/Fonts/Supplemental"@),
            FontDirV::At("/Library/Fonts"@),
        ],
        Os::Linux => seq![
            FontDirV::At("/usr/share/fonts"@),
            FontDirV::At("/usr/local/share/fonts"@),
        ],
        Os::Windows => seq![
            FontDirV::At(
                match windir {
                    Some(w) => w,
                    None => "C:\\Windows"@,
                } + "\\Fonts"@,
            ),
        ],
        Os::Other => Seq::empty(),
    }
}

/// The user's directories.
pub open spec fn home_dirs(os: Os) -> Seq<FontDirV> {
    match os {
        Os::MacOs => seq![FontDirV::UnderHome("Library/Fonts"@)],
        Os::Linux => seq![
            FontDirV::UnderHome(".fonts"@),
            FontDirV::UnderHome(".local/share/fonts"@),
        ],
        _ => Seq::empty(),
    }
}

/// All font directories, the system's first.
pub open spec fn font_dirs(os: Os, has_home: bool, windir: Option<Seq<char>>) -> Seq<FontDirV> {
    own_dirs(os, windir) + if has_home {
        home_dirs(os)
    } else {
        Seq::empty()
    }
}

fn add_dir(v: &mut Vec<FontDir>, d: FontDir)
    ensures
        dirs_view(final(v)@) == dirs_view(old(v)@).push(d@),
{
    proof {
        assert(dirs_view(v@.push(d)) =~= dirs_view(v@).push(d@));
    }
    v.push(d);
}

/// The font directories of a system. `windir` is where Windows says it is
/// installed.
pub fn system_font_dirs(os: Os, has_home: bool, windir: Option<&str>) -> (r: Vec<FontDir>)
    ensures
        dirs_view(r@) == font_dirs(
            os,
            has_home,
            match windir {
                Some(w) => Some(w@),
                None => None,
            },
        ),
{
    let mut dirs: Vec<FontDir> = Vec::new();
    proof {
        assert(dirs_view(dirs@) =~= Seq::empty());
    }
    match os {
        Os::MacOs => {
            add_dir(&mut dirs, FontDir::At("/System/Library/Fonts".to_string()));
            add_dir(&mut dirs, FontDir::At("/System/Library/Fonts/Supplemental".to_string()));
            add_dir(&mut dirs, FontDir::At("/Library/Fonts".to_string()));
            if has_home {
                add_dir(&mut dirs, FontDir::UnderHome("Library/Fonts".to_string()));
            }
        },
        Os::Linux => {
            add_dir(&mut dirs, FontDir::At("/usr/share/fonts".to_string()));
            add_dir(&mut dirs, FontDir::At("/usr/local/share/fonts".to_string()));
            if has_home {
                add_dir(&mut dirs, FontDir::UnderHome(".fonts".to_string()));
                add_dir(&mut dirs, FontDir::UnderHome(".local/share/fonts".to_string()));
            }
        },
        Os::Windows => {
            let mut path: String = match windir {
                Some(w) => w.to_string(),
                None => "C:\\Windows".to_string(),
            };
            path.append("\\Fonts");
            add_dir(&mut dirs, FontDir::At(path));
        },
        Os::Other => {},
    }
    proof {
        let w = match windir {
            Some(w) => Some(w@),
            None => None,
        };
        assert(dirs_view(dirs@) =~= font_dirs(os, has_home, w));
    }
    dirs
}

} // verus!
