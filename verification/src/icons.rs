//! Finding the files of icons in an installation of the game.

use vstd::prelude::*;

use crate::resource::IconRef;
use crate::text::str_eq;

verus! {

/// Something that knows where the file of an icon is.
pub trait IconResolver {
    /// The path of the file of `icon`, if it can be found.
    fn resolve(&self, icon: &IconRef) -> Option<String>;
}

/// `s` has two underscores at position `i`.
pub open spec fn double_underscore_at(s: Seq<char>, i: int) -> bool {
    0 <= i && i + 1 < s.len() && s[i] == '_' && s[i + 1] == '_'
}

/// The first position of two underscores in `s`.
pub open spec fn first_double_underscore(s: Seq<char>) -> int {
    choose|i: int| double_underscore_at(s, i) && forall|j: int| 0 <= j < i ==> !double_underscore_at(s, j)
}

/// The prefix and the path of an icon path of the form
/// `__prefix__/path`: the text between the leading `__` and the next `__`,
/// and the rest without one leading `/`.
pub open spec fn split_prefix_spec(s: Seq<char>) -> Option<(Seq<char>, Seq<char>)> {
    if s.len() >= 2 && s[0] == '_' && s[1] == '_' && exists|i: int| double_underscore_at(s.skip(2), i) {
        let rest = s.skip(2);
        let end = first_double_underscore(rest);
        let after = rest.skip(end + 2);
        let path = if after.len() > 0 && after[0] == '/' {
            after.skip(1)
        } else {
            after
        };
        Some((rest.take(end), path))
    } else {
        None
    }
}

/// Splits an icon path `__prefix__/path` into its prefix and its path.
pub fn split_prefix(s: &str) -> (r: Option<(&str, &str)>)
    ensures
        match r {
            Some((name, path)) => split_prefix_spec(s@) == Some((name@, path@)),
            None => split_prefix_spec(s@) is None,
        },
{
    let n = s.unicode_len();
    if n < 2 || s.get_char(0) != '_' || s.get_char(1) != '_' {
        return None;
    }
    let rest = s.substring_char(2, n);
    let m = rest.unicode_len();
    proof {
        assert(rest@ =~= s@.skip(2));
    }
    let mut i: usize = 0;
    while i < m
        invariant
            m == rest@.len(),
            i <= m,
            n == s@.len(),
            n >= 2,
            s@[0] == '_',
            s@[1] == '_',
            rest@ == s@.skip(2),
            forall|j: int| 0 <= j < i ==> !double_underscore_at(rest@, j),
        decreases m - i,
    {
        if i + 1 < m && rest.get_char(i) == '_' && rest.get_char(i + 1) == '_' {
            let ghost e = first_double_underscore(rest@);
            proof {
                assert(double_underscore_at(s@.skip(2), i as int));
                assert(double_underscore_at(rest@, e) && forall|j: int| 0 <= j < e ==> !double_underscore_at(rest@, j));
                if e < i {
                    assert(!double_underscore_at(rest@, e));
                }
                if i < e {
                    assert(!double_underscore_at(rest@, i as int));
                }
                assert(e == i);
            }
            let name = rest.substring_char(0, i);
            let after = rest.substring_char(i + 2, m);
            let path = if after.unicode_len() > 0 && after.get_char(0) == '/' {
                after.substring_char(1, after.unicode_len())
            } else {
                after
            };
            proof {
                assert(name@ =~= rest@.take(i as int));
                assert(after@ =~= rest@.skip(i + 2));
                if after@.len() > 0 && after@[0] == '/' {
                    assert(path@ =~= after@.skip(1));
                }
            }
            return Some((name, path));
        }
        i = i + 1;
    }
    proof {
        assert forall|k: int| !double_underscore_at(s@.skip(2), k) by {
            if double_underscore_at(s@.skip(2), k) {
                assert(k < i);
            }
        }
    }
    None
}

/// `segment` appended to the path `base` (as a path is pushed onto another
/// on Unix): an absolute segment replaces the base, and otherwise a `/`
/// goes between the two unless the base is empty or ends in one.
pub open spec fn path_joined(base: Seq<char>, segment: Seq<char>) -> Seq<char> {
    if segment.len() > 0 && segment[0] == '/' {
        segment
    } else if base.len() == 0 || base.last() == '/' {
        base + segment
    } else {
        base + "/"@ + segment
    }
}

/// `segment` appended to the path `base`.
pub fn path_join(base: &str, segment: &str) -> (p: String)
    ensures
        p@ == path_joined(base@, segment@),
{
    proof {
        reveal_strlit("/");
    }
    let sn = segment.unicode_len();
    if sn > 0 && segment.get_char(0) == '/' {
        return segment.to_owned();
    }
    let bn = base.unicode_len();
    let mut p = base.to_owned();
    if bn > 0 && base.get_char(bn - 1) != '/' {
        p.append("/");
    }
    p.append(segment);
    p
}

/// An installation of the game, by the directory it is installed in.
#[derive(Debug)]
pub struct FactorioInstall {
    root: String,
}

/// The directory of the files with the prefix `prefix`: `data/base` and
/// `data/core` for the game's own, `mods/<prefix>` for a mod.
pub open spec fn prefix_dir(root: Seq<char>, prefix: Seq<char>) -> Seq<char> {
    if prefix == "base"@ {
        path_joined(path_joined(root, "data"@), "base"@)
    } else if prefix == "core"@ {
        path_joined(path_joined(root, "data"@), "core"@)
    } else {
        path_joined(path_joined(root, "mods"@), prefix)
    }
}

impl FactorioInstall {
    /// The installation in the directory `root`.
    pub fn new(root: &str) -> (f: Self)
        ensures
            f.root_path() == root@,
    {
        FactorioInstall { root: root.to_owned() }
    }

    /// The directory of the installation.
    pub closed spec fn root_path(&self) -> Seq<char> {
        self.root@
    }

    /// The directory of the installation.
    pub fn root(&self) -> (r: &str)
        ensures
            r@ == self.root_path(),
    {
        self.root.as_str()
    }
}

impl IconResolver for FactorioInstall {
    /// The file of `icon` under the installation: its path under the
    /// directory of its prefix, when the icon's path has a prefix.
    fn resolve(&self, icon: &IconRef) -> (r: Option<String>)
        ensures
            match split_prefix_spec(icon.path@) {
                Some((prefix, path)) => r matches Some(p) && p@ == path_joined(prefix_dir(self.root_path(), prefix), path),
                None => r is None,
            },
    {
        proof {
            reveal_strlit("base");
            reveal_strlit("core");
            reveal_strlit("data");
            reveal_strlit("mods");
        }
        let (prefix, path) = match split_prefix(icon.path.as_str()) {
            Some(parts) => parts,
            None => {
                return None;
            },
        };
        let dir = if str_eq(prefix, "base") {
            let data = path_join(self.root.as_str(), "data");
            path_join(data.as_str(), "base")
        } else if str_eq(prefix, "core") {
            let data = path_join(self.root.as_str(), "data");
            path_join(data.as_str(), "core")
        } else {
            let mods = path_join(self.root.as_str(), "mods");
            path_join(mods.as_str(), prefix)
        };
        Some(path_join(dir.as_str(), path))
    }
}


/// A relative segment appended to a path keeps the path as its beginning.
proof fn lemma_joined_extends(base: Seq<char>, segment: Seq<char>)
    requires
        !(segment.len() > 0 && segment[0] == '/'),
    ensures
        base.is_prefix_of(path_joined(base, segment)),
{
    let p = path_joined(base, segment);
    assert(p.subrange(0, base.len() as int) =~= base);
}

/// The file that an installation finds for an icon lies inside the
/// installation's directory, when neither the icon's prefix nor the path
/// after it is absolute.
pub proof fn law_resolved_inside_root(root: Seq<char>, path: Seq<char>)
    requires
        split_prefix_spec(path) matches Some((prefix, rest)) && !(prefix.len() > 0 && prefix[0] == '/') && !(
        rest.len() > 0 && rest[0] == '/'),
    ensures
        split_prefix_spec(path) matches Some((prefix, rest)) && root.is_prefix_of(
            path_joined(prefix_dir(root, prefix), rest),
        ),
{
    reveal_strlit("base");
    reveal_strlit("core");
    reveal_strlit("data");
    reveal_strlit("mods");
    let (prefix, rest) = split_prefix_spec(path).unwrap();
    let top = if prefix == "base"@ || prefix == "core"@ {
        "data"@
    } else {
        "mods"@
    };
    let second = if prefix == "base"@ {
        "base"@
    } else if prefix == "core"@ {
        "core"@
    } else {
        prefix
    };
    lemma_joined_extends(root, top);
    lemma_joined_extends(path_joined(root, top), second);
    assert(prefix_dir(root, prefix) == path_joined(path_joined(root, top), second));
    lemma_joined_extends(prefix_dir(root, prefix), rest);
}

} // verus!
