//! Which local file or folder a qBittorrent "download completed" notification
//! can reveal, from the torrent's metadata and qBittorrent's resume data.

use vstd::prelude::*;
use crate::text::{
    chars_of, contains, contains_str, copy_string, eq_ignore_case, eq_ignore_case_str, first_match,
};
use super::Notification;

verus! {

/// The parts of a `.torrent` file's `info` dictionary that matter here.
#[derive(Debug, Clone, PartialEq, Eq)]
pub struct TorrentInfo {
    pub name: String,
    /// The `path` of each entry of `files` (multi-file torrents of version 1).
    pub files: Vec<Vec<String>>,
    /// Whether there is a `file tree` (torrents of version 2).
    pub has_file_tree: bool,
}

/// The parts of a qBittorrent `.fastresume` file that matter here.
#[derive(Debug, Clone, PartialEq, Eq)]
pub struct FastResume {
    pub qbt_save_path: Option<String>,
    pub qbt_name: Option<String>,
    pub qbt_content_layout: Option<String>,
    pub save_path: Option<String>,
}

impl TorrentInfo {
    pub fn is_multi_file(&self) -> (r: bool)
        ensures
            r == (self.files@.len() > 0 || self.has_file_tree),
    {
        self.files.len() > 0 || self.has_file_tree
    }
}

pub open spec fn nonempty(s: Option<String>) -> Option<Seq<char>> {
    match s {
        Some(v) => if v@.len() > 0 { Some(v@) } else { None },
        None => None,
    }
}

pub open spec fn resume_save_path(r: FastResume) -> Option<Seq<char>> {
    match r.qbt_save_path {
        Some(p) => if p@.len() > 0 { Some(p@) } else { None },
        None => nonempty(r.save_path),
    }
}

pub open spec fn resume_name(r: FastResume, torrent_name: Seq<char>) -> Option<Seq<char>> {
    match nonempty(r.qbt_name) {
        Some(n) => Some(n),
        None => if torrent_name.len() > 0 { Some(torrent_name) } else { None },
    }
}

impl FastResume {
    /// qBittorrent's save path, else libtorrent's; none when empty.
    pub fn save_path(&self) -> (r: Option<String>)
        ensures
            match r {
                Some(p) => resume_save_path(*self) == Some(p@),
                None => resume_save_path(*self) is None,
            },
    {
        let chosen = match &self.qbt_save_path {
            Some(p) => Some(p),
            None => match &self.save_path {
                Some(p) => Some(p),
                None => None,
            },
        };
        match chosen {
            Some(p) => if p.as_str().unicode_len() > 0 {
                Some(copy_string(p))
            } else {
                proof {
                    assert(p@.len() == 0);
                }
                None
            },
            None => None,
        }
    }

    /// The name qBittorrent shows (it may be renamed), else the torrent's.
    pub fn effective_name(&self, torrent_name: &str) -> (r: Option<String>)
        ensures
            match r {
                Some(n) => resume_name(*self, torrent_name@) == Some(n@),
                None => resume_name(*self, torrent_name@) is None,
            },
    {
        match &self.qbt_name {
            Some(n) => if n.as_str().unicode_len() > 0 {
                return Some(copy_string(n));
            },
            None => {},
        }
        if torrent_name.unicode_len() > 0 {
            Some(crate::text::owned(torrent_name))
        } else {
            None
        }
    }

    /// Whether the content sits in a folder of its own (any layout but `NoSubfolder`).
    pub fn uses_content_directory(&self) -> (r: bool)
        ensures
            r == !(self.qbt_content_layout matches Some(l) && eq_ignore_case(l@, "NoSubfolder"@)),
    {
        match &self.qbt_content_layout {
            Some(layout) => !eq_ignore_case_str(layout.as_str(), "NoSubfolder"),
            None => true,
        }
    }
}

/// The segments of a path between `/` separators.
pub open spec fn segments(s: Seq<char>) -> Seq<Seq<char>> {
    crate::text::split_on(s, '/')
}

pub open spec fn meaningful(seg: Seq<char>) -> bool {
    seg.len() > 0 && seg != "."@
}

/// Whether `Path::new(name).components()` on Unix yields exactly one
/// `Normal` component. By its documentation, components are the segments
/// between separators, where repeated separators and `.` segments are
/// skipped, except that a leading `/` is a `RootDir` and a leading `.`
/// segment a `CurDir`; a `..` segment is a `ParentDir`; the others are `Normal`.
pub open spec fn single_normal_component(name: Seq<char>) -> bool {
    let segs = segments(name);
    &&& !(name.len() > 0 && name[0] == '/')
    &&& segs[0] != "."@
    &&& segs.filter(|g: Seq<char>| meaningful(g)).len() == 1
    &&& segs.filter(|g: Seq<char>| meaningful(g))[0] != ".."@
}

pub open spec fn meaningful_segment() -> spec_fn(Seq<char>) -> bool {
    |g: Seq<char>| meaningful(g)
}

fn is_dot(v: &Vec<char>) -> (r: bool)
    ensures
        r == (v@ == "."@),
{
    proof {
        reveal_strlit(".");
    }
    let r = v.len() == 1 && v[0] == '.';
    if r {
        assert(v@ =~= "."@);
    }
    r
}

fn is_dot_dot(v: &Vec<char>) -> (r: bool)
    ensures
        r == (v@ == ".."@),
{
    proof {
        reveal_strlit("..");
    }
    let r = v.len() == 2 && v[0] == '.' && v[1] == '.';
    if r {
        assert(v@ =~= ".."@);
    }
    r
}

/// Whether `name` is one normal path component, as `Path::components`
/// splits a Unix path: no leading `/` or `.`, one segment that is neither
/// empty nor `.`, and that one not `..`.
fn path_is_single_normal_component(name: &str) -> (r: bool)
    ensures
        r == single_normal_component(name@),
{
    let chars = crate::text::chars_of(name);
    let segs = crate::text::split_chars(chars.as_slice(), '/');
    let ghost sv = crate::text::views(segs@);
    proof {
        crate::text::lemma_split_on(name@, '/');
    }
    assert(sv.len() >= 1);
    if chars.len() > 0 && chars[0] == '/' {
        return false;
    }
    if is_dot(&segs[0]) {
        return false;
    }
    let mut count: usize = 0;
    let mut first: usize = 0;
    let mut i: usize = 0;
    while i < segs.len()
        invariant
            sv == crate::text::views(segs@),
            i <= segs@.len(),
            count as int == sv.take(i as int).filter(meaningful_segment()).len(),
            count <= i,
            count > 0 ==> first < i && sv.take(i as int).filter(meaningful_segment())[0] == sv[first as int],
        decreases segs@.len() - i,
    {
        proof {
            assert(sv.take(i + 1) =~= sv.take(i as int).push(sv[i as int]));
            sv.take(i as int).lemma_filter_push(sv[i as int], meaningful_segment());
        }
        let seg = &segs[i];
        assert(seg@ == sv[i as int]);
        if seg.len() > 0 && !is_dot(seg) {
            if count == 0 {
                first = i;
            }
            count += 1;
        }
        i += 1;
    }
    assert(sv.take(i as int) =~= sv);
    count == 1 && !is_dot_dot(&segs[first])
}

/// `name` when it cannot leave the folder it is joined to: exactly one normal
/// path component (no root, no `..`, no separators between names).
pub fn safe_path_component(name: &str) -> (r: Option<String>)
    ensures
        r is Some <==> single_normal_component(name@),
        r matches Some(n) ==> n@ == name@,
{
    if path_is_single_normal_component(name) {
        Some(crate::text::owned(name))
    } else {
        None
    }
}

/// What to reveal for a finished torrent: its save path, and, to try first,
/// the file or folder in it that holds the content.
#[derive(Debug, Clone, PartialEq, Eq)]
pub struct ContentTarget {
    pub save_path: String,
    /// The single file of a one-file torrent, to reveal if it is a file.
    pub content_file: Option<String>,
    /// The content folder of a multi-file torrent, to reveal if it is a folder.
    pub content_directory: Option<String>,
}

pub open spec fn mentions(body: Seq<char>, torrent: TorrentInfo, resume: FastResume) -> bool {
    contains(body, torrent.name@) || (resume_name(resume, torrent.name@) matches Some(n) && contains(
        body,
        n,
    ))
}

pub open spec fn safe_name(torrent: TorrentInfo, resume: FastResume) -> Option<Seq<char>> {
    match resume_name(resume, torrent.name@) {
        Some(n) => if single_normal_component(n) { Some(n) } else { None },
        None => None,
    }
}

/// The target for a notification body, when the body names the torrent and
/// qBittorrent knows where it saved it.
pub fn content_target(torrent: &TorrentInfo, resume: &FastResume, body: &str) -> (r: Option<ContentTarget>)
    ensures
        r is Some <==> mentions(body@, *torrent, *resume) && resume_save_path(*resume) is Some,
        r matches Some(t) ==> {
            &&& resume_save_path(*resume) == Some(t.save_path@)
            &&& match t.content_file {
                Some(f) => torrent.files@.len() == 0 && safe_name(*torrent, *resume) == Some(f@),
                None => !(torrent.files@.len() == 0 && safe_name(*torrent, *resume) is Some),
            }
            &&& match t.content_directory {
                Some(d) => (torrent.files@.len() > 0 || torrent.has_file_tree) && !(
                resume.qbt_content_layout matches Some(l) && eq_ignore_case(l@, "NoSubfolder"@))
                    && safe_name(*torrent, *resume) == Some(d@),
                None => !((torrent.files@.len() > 0 || torrent.has_file_tree) && !(
                resume.qbt_content_layout matches Some(l) && eq_ignore_case(l@, "NoSubfolder"@))
                    && safe_name(*torrent, *resume) is Some),
            }
        },
{
    let body_chars = chars_of(body);
    let name = resume.effective_name(torrent.name.as_str());
    let named = contains_str(&body_chars, torrent.name.as_str()) || match &name {
        Some(n) => contains_str(&body_chars, n.as_str()),
        None => false,
    };
    if !named {
        return None;
    }
    let save_path = match resume.save_path() {
        Some(p) => p,
        None => return None,
    };
    let safe = match &name {
        Some(n) => safe_path_component(n.as_str()),
        None => None,
    };
    let content_file = if torrent.files.len() == 0 {
        match &safe {
            Some(n) => Some(copy_string(n)),
            None => None,
        }
    } else {
        None
    };
    let content_directory = if torrent.is_multi_file() && resume.uses_content_directory() {
        safe
    } else {
        None
    };
    Some(ContentTarget { save_path, content_file, content_directory })
}

/// Whether a notification is qBittorrent's "Download completed" (in any case).
pub fn is_qbittorrent_completion(notification: &Notification) -> (r: bool)
    ensures
        r == (eq_ignore_case(notification.app_name@, "qBittorrent"@) && eq_ignore_case(
            notification.summary@,
            "Download completed"@,
        )),
{
    eq_ignore_case_str(notification.app_name.as_str(), "qBittorrent") && eq_ignore_case_str(
        notification.summary.as_str(),
        "Download completed",
    )
}

} // verus!
