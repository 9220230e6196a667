//! Where the cache and the socket are.
//!
//! A path is the sequence of bytes that a Unix system calls by that name. Layout of the cache
//! directory:
//!
//! - `index.tsv`: the rolling text history, most recent first, one entry on a line
//! - `entries/<hash>`: the bytes of each entry of the history
//! - `last_image.bin`: the bytes of the image that was copied last (a single slot)
//! - `last_image.meta`: the mime type of that image
use vstd::prelude::*;
use vstd::slice::slice_to_vec;
use vstd::utf8::encode_utf8;

verus! {

/// The environment variables that say where things are. One that is not set is `None`, and so is
/// one of those held as a `String` whose value is not Unicode.
#[derive(Debug)]
pub struct Environment {
    /// `CLIPDMENU_CACHE_DIR`
    pub cache_dir: Option<String>,
    /// `XDG_CACHE_HOME`
    pub xdg_cache_home: Option<Vec<u8>>,
    /// `HOME`
    pub home: Option<Vec<u8>>,
    /// `XDG_RUNTIME_DIR`
    pub runtime_dir: Option<String>,
}

/// The mathematical content of an [`Environment`].
#[verifier::ext_equal]
pub struct EnvironmentView {
    pub cache_dir: Option<Seq<char>>,
    pub xdg_cache_home: Option<Seq<u8>>,
    pub home: Option<Seq<u8>>,
    pub runtime_dir: Option<Seq<char>>,
}

impl View for Environment {
    type V = EnvironmentView;

    open spec fn view(&self) -> EnvironmentView {
        EnvironmentView {
            cache_dir: match self.cache_dir {
                Some(s) => Some(s@),
                None => None,
            },
            xdg_cache_home: match self.xdg_cache_home {
                Some(p) => Some(p@),
                None => None,
            },
            home: match self.home {
                Some(p) => Some(p@),
                None => None,
            },
            runtime_dir: match self.runtime_dir {
                Some(s) => Some(s@),
                None => None,
            },
        }
    }
}

/// The byte that separates the components of a path.
pub const SEPARATOR: u8 = 0x2F;

/// The path `rel` as seen from `base`: `rel` itself if it is absolute, else the two with one
/// separator between them.
pub open spec fn joined_path(base: Seq<u8>, rel: Seq<u8>) -> Seq<u8> {
    if rel.len() > 0 && rel[0] == SEPARATOR {
        rel
    } else if base.len() > 0 && base.last() != SEPARATOR {
        base.push(SEPARATOR) + rel
    } else {
        base + rel
    }
}

/// The path of what is called `name` in the directory `base`.
pub open spec fn path_in(base: Seq<u8>, name: Seq<char>) -> Seq<u8> {
    joined_path(base, encode_utf8(name))
}

impl EnvironmentView {
    /// Whether the environment says where the cache is.
    pub open spec fn has_cache_dir(self) -> bool {
        self.cache_dir is Some || self.xdg_cache_home is Some || self.home is Some
    }

    /// Whether the environment says where the socket is.
    pub open spec fn has_socket_path(self) -> bool {
        self.runtime_dir is Some || self.has_cache_dir()
    }

    /// The cache directory: the one that is set outright, else `clipdmenu` in the user's cache
    /// directory, which is `.cache` at home where nothing else is set.
    pub open spec fn cache_path(self) -> Seq<u8> {
        match self.cache_dir {
            Some(dir) => encode_utf8(dir),
            None => path_in(
                match self.xdg_cache_home {
                    Some(dir) => dir,
                    None => path_in(self.home->0, ".cache"@),
                },
                "clipdmenu"@,
            ),
        }
    }

    /// The directory that holds the entries.
    pub open spec fn entries_path(self) -> Seq<u8> {
        path_in(self.cache_path(), "entries"@)
    }

    /// The file that holds the entry of the given hash.
    pub open spec fn entry_path(self, hash: Seq<char>) -> Seq<u8> {
        path_in(self.entries_path(), hash)
    }

    /// The index.
    pub open spec fn index_path(self) -> Seq<u8> {
        path_in(self.cache_path(), "index.tsv"@)
    }

    /// The file in which a new index is written before it takes the place of the old one.
    pub open spec fn new_index_path(self) -> Seq<u8> {
        path_in(self.cache_path(), "index.tsv.tmp"@)
    }

    /// The file that holds the last image.
    pub open spec fn image_data_path(self) -> Seq<u8> {
        path_in(self.cache_path(), "last_image.bin"@)
    }

    /// The file that holds the mime type of the last image.
    pub open spec fn image_meta_path(self) -> Seq<u8> {
        path_in(self.cache_path(), "last_image.meta"@)
    }

    /// The socket over which clients reach the daemon.
    pub open spec fn socket_path(self) -> Seq<u8> {
        match self.runtime_dir {
            Some(dir) => path_in(encode_utf8(dir), "clipdmenu.sock"@),
            None => path_in(self.cache_path(), "clipdmenu.sock"@),
        }
    }
}

/// The path `rel` as seen from `base`.
pub fn join_path(base: &[u8], rel: &[u8]) -> (r: Vec<u8>)
    ensures
        r@ == joined_path(base@, rel@),
{
    if rel.len() > 0 && rel[0] == SEPARATOR {
        return slice_to_vec(rel);
    }
    let mut out = slice_to_vec(base);
    if base.len() > 0 && base[base.len() - 1] != SEPARATOR {
        out.push(SEPARATOR);
    }
    let ghost start = out@;
    for i in 0..rel.len()
        invariant
            out@ == start + rel@.take(i as int),
    {
        out.push(rel[i]);
    }
    assert(rel@.take(rel@.len() as int) == rel@);
    out
}

/// The path of what is called `name` in the directory `base`.
fn join_name(base: &[u8], name: &str) -> (r: Vec<u8>)
    ensures
        r@ == path_in(base@, name@),
{
    join_path(base, name.as_bytes())
}

/// The cache directory.
pub fn cache_dir(env: &Environment) -> (r: Vec<u8>)
    requires
        env@.has_cache_dir(),
    ensures
        r@ == env@.cache_path(),
{
    if let Some(dir) = &env.cache_dir {
        return slice_to_vec(dir.as_str().as_bytes());
    }
    let base: Vec<u8> = match &env.xdg_cache_home {
        Some(dir) => slice_to_vec(dir.as_slice()),
        None => match &env.home {
            Some(home) => join_name(home.as_slice(), ".cache"),
            None => Vec::new(),
        },
    };
    join_name(base.as_slice(), "clipdmenu")
}

/// The directory that holds the entries.
pub fn entries_dir(env: &Environment) -> (r: Vec<u8>)
    requires
        env@.has_cache_dir(),
    ensures
        r@ == env@.entries_path(),
{
    join_name(cache_dir(env).as_slice(), "entries")
}

/// The file that holds the entry of the given hash.
pub fn entry_path(env: &Environment, hash: &str) -> (r: Vec<u8>)
    requires
        env@.has_cache_dir(),
    ensures
        r@ == env@.entry_path(hash@),
{
    join_name(entries_dir(env).as_slice(), hash)
}

/// The index.
pub fn index_path(env: &Environment) -> (r: Vec<u8>)
    requires
        env@.has_cache_dir(),
    ensures
        r@ == env@.index_path(),
{
    join_name(cache_dir(env).as_slice(), "index.tsv")
}

/// The file in which a new index is written before it takes the place of the old one.
pub fn new_index_path(env: &Environment) -> (r: Vec<u8>)
    requires
        env@.has_cache_dir(),
    ensures
        r@ == env@.new_index_path(),
{
    join_name(cache_dir(env).as_slice(), "index.tsv.tmp")
}

/// The file that holds the last image.
pub fn last_image_data_path(env: &Environment) -> (r: Vec<u8>)
    requires
        env@.has_cache_dir(),
    ensures
        r@ == env@.image_data_path(),
{
    join_name(cache_dir(env).as_slice(), "last_image.bin")
}

/// The file that holds the mime type of the last image.
pub fn last_image_meta_path(env: &Environment) -> (r: Vec<u8>)
    requires
        env@.has_cache_dir(),
    ensures
        r@ == env@.image_meta_path(),
{
    join_name(cache_dir(env).as_slice(), "last_image.meta")
}

/// The socket over which clients reach the daemon.
pub fn socket_path(env: &Environment) -> (r: Vec<u8>)
    requires
        env@.has_socket_path(),
    ensures
        r@ == env@.socket_path(),
{
    match &env.runtime_dir {
        Some(dir) => join_name(dir.as_str().as_bytes(), "clipdmenu.sock"),
        None => join_name(cache_dir(env).as_slice(), "clipdmenu.sock"),
    }
}

/// Whether the environment says where the cache is.
pub fn has_cache_dir(env: &Environment) -> (r: bool)
    ensures
        r == env@.has_cache_dir(),
{
    env.cache_dir.is_some() || env.xdg_cache_home.is_some() || env.home.is_some()
}

/// Whether the environment says where the socket is.
pub fn has_socket_path(env: &Environment) -> (r: bool)
    ensures
        r == env@.has_socket_path(),
{
    env.runtime_dir.is_some() || has_cache_dir(env)
}

// ---------------------------------------------------------------------------------------------
// Laws
// ---------------------------------------------------------------------------------------------

/// A relative path is put behind its base, both whole, with one separator between them unless the
/// base is empty or ends in one. An absolute path is taken as it is.
pub proof fn law_paths_are_joined_by_one_separator(base: Seq<u8>, rel: Seq<u8>)
    ensures
        ({
            let p = joined_path(base, rel);
            let gap = p.len() - base.len() - rel.len();
            if rel.len() > 0 && rel[0] == 0x2F {
                p == rel
            } else {
                &&& gap == (if base.len() > 0 && base.last() != 0x2F {
                    1int
                } else {
                    0
                })
                &&& p.take(base.len() as int) == base
                &&& p.skip(base.len() + gap) == rel
                &&& gap == 1 ==> p[base.len() as int] == 0x2F
            }
        }),
{
    let p = joined_path(base, rel);
    if !(rel.len() > 0 && rel[0] == 0x2F) {
        let gap = p.len() - base.len() - rel.len();
        assert(p.take(base.len() as int) =~= base);
        assert(p.skip(base.len() + gap) =~= rel);
    }
}

/// The cache is where `CLIPDMENU_CACHE_DIR` says, whatever else is set; else it is `clipdmenu` where
/// `XDG_CACHE_HOME` says, whatever the home directory is; else it is `.cache/clipdmenu` at home.
pub proof fn law_cache_dir_is_where_the_environment_says(
    dir: Seq<char>,
    xdg: Seq<u8>,
    home: Seq<u8>,
    env: EnvironmentView,
)
    ensures
        (EnvironmentView { cache_dir: Some(dir), ..env }).cache_path() == encode_utf8(dir),
        (EnvironmentView {
            cache_dir: None,
            xdg_cache_home: Some(xdg),
            ..env
        }).cache_path() == joined_path(xdg, encode_utf8("clipdmenu"@)),
        (EnvironmentView {
            cache_dir: None,
            xdg_cache_home: None,
            home: Some(home),
            ..env
        }).cache_path() == joined_path(
            joined_path(home, encode_utf8(".cache"@)),
            encode_utf8("clipdmenu"@),
        ),
{
}

/// The files of the cache stand in its directory under their own names, and the entries in a
/// directory of their own, each under its hash. The socket is where `XDG_RUNTIME_DIR` says, else in
/// the cache directory.
pub proof fn law_files_stand_in_the_cache_dir(
    env: EnvironmentView,
    hash: Seq<char>,
    runtime: Seq<char>,
)
    ensures
        env.entries_path() == joined_path(env.cache_path(), encode_utf8("entries"@)),
        env.entry_path(hash) == joined_path(
            joined_path(env.cache_path(), encode_utf8("entries"@)),
            encode_utf8(hash),
        ),
        env.index_path() == joined_path(env.cache_path(), encode_utf8("index.tsv"@)),
        env.new_index_path() == joined_path(env.cache_path(), encode_utf8("index.tsv.tmp"@)),
        env.image_data_path() == joined_path(env.cache_path(), encode_utf8("last_image.bin"@)),
        env.image_meta_path() == joined_path(env.cache_path(), encode_utf8("last_image.meta"@)),
        (EnvironmentView { runtime_dir: None, ..env }).socket_path() == joined_path(
            env.cache_path(),
            encode_utf8("clipdmenu.sock"@),
        ),
        (EnvironmentView { runtime_dir: Some(runtime), ..env }).socket_path() == joined_path(
            encode_utf8(runtime),
            encode_utf8("clipdmenu.sock"@),
        ),
{
    assert((EnvironmentView { runtime_dir: None, ..env }).cache_path() == env.cache_path());
}

/// The environment says where the cache is if any of three variables is set, and where the socket
/// is if any of four is.
pub proof fn law_one_variable_is_enough(env: EnvironmentView)
    ensures
        !env.has_cache_dir() <==> env.cache_dir is None && env.xdg_cache_home is None && env.home
            is None,
        !env.has_socket_path() <==> env.runtime_dir is None && env.cache_dir is None
            && env.xdg_cache_home is None && env.home is None,
{
}

/// The content of an environment is its variables, each with its whole value or not set.
pub proof fn law_content_of_an_environment_is_whole(env: Environment)
    ensures
        env.cache_dir is None <==> env@.cache_dir is None,
        env.cache_dir matches Some(s) ==> env@.cache_dir == Some(s@),
        env.xdg_cache_home is None <==> env@.xdg_cache_home is None,
        env.xdg_cache_home matches Some(p) ==> env@.xdg_cache_home == Some(p@),
        env.home is None <==> env@.home is None,
        env.home matches Some(p) ==> env@.home == Some(p@),
        env.runtime_dir is None <==> env@.runtime_dir is None,
        env.runtime_dir matches Some(s) ==> env@.runtime_dir == Some(s@),
{
}

}
