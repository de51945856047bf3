//! The host platform families and their path conventions.

use vstd::prelude::*;
use vstd::string::StringExecFns;

use crate::text::{append, chars_of, slice_of, string_of, text_of};

verus! {

/// The platform family of the host. The caller names it; the library never inspects
/// the machine.
#[derive(Debug, Clone, Copy, PartialEq, Eq, Structural)]
pub enum Platform {
    Windows,
    MacOs,
    Linux,
}

/// Whether `c` separates path components on `platform`.
pub open spec fn is_separator(c: char, platform: Platform) -> bool {
    c == '/' || (platform == Platform::Windows && c == '\\')
}

/// `base` extended by the relative component `name`: the separator is written only
/// where `base` is not empty and does not already end in one.
pub open spec fn joined(base: Seq<char>, name: Seq<char>, platform: Platform) -> Seq<char> {
    if base.len() == 0 || is_separator(base.last(), platform) {
        base + name
    } else {
        base.push(platform.separator_char()) + name
    }
}

/// The number of separators at the end of `path`.
pub open spec fn trailing_separators(path: Seq<char>, platform: Platform) -> nat
    decreases path.len(),
{
    if path.len() > 0 && is_separator(path.last(), platform) {
        1 + trailing_separators(path.drop_last(), platform)
    } else {
        0
    }
}

/// `path` without the separators at its end.
pub open spec fn without_trailing_separators(path: Seq<char>, platform: Platform) -> Seq<char> {
    path.take(path.len() - trailing_separators(path, platform))
}

/// `path` as the registry holds it: without the separators at its end. A path made of
/// separators alone is the root, written as its first character.
pub open spec fn tidy(path: Seq<char>, platform: Platform) -> Seq<char> {
    let cut = without_trailing_separators(path, platform);
    if cut.len() == 0 && path.len() > 0 {
        path.take(1)
    } else {
        cut
    }
}

/// Whether `path` has the form in which the registry holds paths.
pub open spec fn is_tidy(path: Seq<char>, platform: Platform) -> bool {
    tidy(path, platform) == path
}

/// The separators at the end of a path are separators, and what stands before them
/// does not end in one.
pub proof fn lemma_trailing_separators(path: Seq<char>, platform: Platform)
    ensures
        trailing_separators(path, platform) <= path.len(),
        forall|k: int|
            path.len() - trailing_separators(path, platform) <= k < path.len() ==> is_separator(
                #[trigger] path[k],
                platform,
            ),
        trailing_separators(path, platform) < path.len() ==> !is_separator(
            path[path.len() - trailing_separators(path, platform) - 1],
            platform,
        ),
    decreases path.len(),
{
    if path.len() > 0 && is_separator(path.last(), platform) {
        let init = path.drop_last();
        lemma_trailing_separators(init, platform);
        assert forall|k: int|
            path.len() - trailing_separators(path, platform) <= k < path.len() implies is_separator(
            #[trigger] path[k],
            platform,
        ) by {
            if k < init.len() {
                assert(path[k] == init[k]);
            }
        }
        if trailing_separators(path, platform) < path.len() {
            assert(path[path.len() - trailing_separators(path, platform) - 1] == init[init.len()
                - trailing_separators(init, platform) - 1]);
        }
    }
}

/// What `tidy` gives has the form in which the registry holds paths.
pub proof fn lemma_tidy_is_tidy(path: Seq<char>, platform: Platform)
    ensures
        is_tidy(tidy(path, platform), platform),
{
    lemma_trailing_separators(path, platform);
    let cut = without_trailing_separators(path, platform);
    let out = tidy(path, platform);
    if cut.len() == 0 && path.len() > 0 {
        assert(is_separator(path[0], platform));
        assert(out.len() == 1 && out[0] == path[0]);
        assert(out.last() == path[0]);
        assert(out.drop_last().len() == 0);
        assert(trailing_separators(out.drop_last(), platform) == 0);
        assert(trailing_separators(out, platform) == 1);
        assert(without_trailing_separators(out, platform).len() == 0);
        assert(out.take(1) =~= out);
    } else if cut.len() > 0 {
        assert(cut.last() == path[cut.len() - 1]);
        assert(trailing_separators(cut, platform) == 0);
        assert(cut.take(cut.len() as int) =~= cut);
    } else {
        assert(trailing_separators(cut, platform) == 0);
        assert(cut.take(0) =~= cut);
    }
}

/// The length of `path` without its last component: what is left ends in a separator
/// or is empty.
pub open spec fn directory_length(path: Seq<char>, platform: Platform) -> nat
    decreases path.len(),
{
    if path.len() > 0 && !is_separator(path.last(), platform) {
        directory_length(path.drop_last(), platform)
    } else {
        path.len()
    }
}

/// The directory that holds `path`. Separators at the end of `path` do not count. A
/// path that is empty or made of separators alone has no parent; a single name has the
/// empty path as its parent; a name directly below the root has the root, written as
/// the first character of `path`.
pub open spec fn parent_path(path: Seq<char>, platform: Platform) -> Option<Seq<char>> {
    let whole = without_trailing_separators(path, platform);
    if whole.len() == 0 {
        None
    } else {
        let cut = directory_length(whole, platform);
        if cut == 0 {
            Some(Seq::empty())
        } else {
            let directory = without_trailing_separators(whole.take(cut as int), platform);
            if directory.len() == 0 {
                Some(path.take(1))
            } else {
                Some(directory)
            }
        }
    }
}

impl Platform {
    /// The separator this platform writes between path components.
    pub open spec fn separator_char(self) -> char {
        if self == Platform::Windows {
            '\\'
        } else {
            '/'
        }
    }

    /// The file name of the runtime's launcher.
    pub open spec fn java_name(self) -> Seq<char> {
        if self == Platform::Windows {
            "java.exe"@
        } else {
            "java"@
        }
    }

    /// The file name of the compiler's launcher.
    pub open spec fn javac_name(self) -> Seq<char> {
        if self == Platform::Windows {
            "javac.exe"@
        } else {
            "javac"@
        }
    }

    /// The path of the runtime's launcher below the installation root `root`.
    pub open spec fn java_path(self, root: Seq<char>) -> Seq<char> {
        joined(joined(root, "bin"@, self), self.java_name(), self)
    }

    /// The path of the compiler's launcher below the installation root `root`.
    pub open spec fn javac_path(self, root: Seq<char>) -> Seq<char> {
        joined(joined(root, "bin"@, self), self.javac_name(), self)
    }

    /// The separator this platform writes between path components.
    pub fn separator(self) -> (c: char)
        ensures
            c == self.separator_char(),
    {
        match self {
            Platform::Windows => '\\',
            _ => '/',
        }
    }

    /// The file name of the runtime's launcher.
    pub fn java_executable_name(self) -> (r: String)
        ensures
            r@ == self.java_name(),
    {
        match self {
            Platform::Windows => String::from_str("java.exe"),
            _ => String::from_str("java"),
        }
    }

    /// The file name of the compiler's launcher.
    pub fn javac_executable_name(self) -> (r: String)
        ensures
            r@ == self.javac_name(),
    {
        match self {
            Platform::Windows => String::from_str("javac.exe"),
            _ => String::from_str("javac"),
        }
    }

    /// `base` extended by the relative component `name`.
    pub fn join(self, base: &str, name: &str) -> (r: String)
        ensures
            r@ == joined(base@, name@, self),
    {
        let mut out = chars_of(base);
        let tail = chars_of(name);
        let n = out.len();
        if n > 0 {
            let last = out[n - 1];
            let ends_in_separator = last == '/' || (self == Platform::Windows && last == '\\');
            if !ends_in_separator {
                out.push(self.separator());
            }
        }
        append(&mut out, &tail);
        string_of(&out)
    }

    /// Whether `c` separates path components on this platform.
    pub fn is_separator(self, c: char) -> (r: bool)
        ensures
            r == is_separator(c, self),
    {
        c == '/' || (self == Platform::Windows && c == '\\')
    }

    /// The length of the first `n` characters of `path` without the separators at
    /// their end.
    fn strip_separators(self, path: &Vec<char>, n: usize) -> (r: usize)
        requires
            n <= path.len(),
        ensures
            r <= n,
            path@.take(r as int) == without_trailing_separators(path@.take(n as int), self),
    {
        let mut end: usize = n;
        let ghost all = path@.take(n as int);
        assert(all.take(n as int) =~= all);
        while end > 0 && self.is_separator(path[end - 1])
            invariant
                end <= n <= path.len(),
                all == path@.take(n as int),
                trailing_separators(all, self) == (n - end) + trailing_separators(
                    all.take(end as int),
                    self,
                ),
            decreases end,
        {
            proof {
                let head = all.take(end as int);
                assert(head.drop_last() =~= all.take(end - 1));
                assert(head.last() == path@[end - 1]);
            }
            end -= 1;
        }
        proof {
            let head = all.take(end as int);
            if end > 0 {
                assert(head.last() == path@[end - 1]);
            }
            assert(trailing_separators(head, self) == 0);
            assert(all.take(end as int) =~= path@.take(end as int));
        }
        end
    }

    /// `path` as the registry holds it: without the separators at its end.
    pub fn tidy(self, path: &str) -> (r: String)
        ensures
            r@ == tidy(path@, self),
            is_tidy(r@, self),
    {
        proof {
            lemma_tidy_is_tidy(path@, self);
        }
        let chars = chars_of(path);
        let kept = self.strip_separators(&chars, chars.len());
        assert(chars@.take(chars.len() as int) =~= chars@);
        let end: usize = if kept == 0 && chars.len() > 0 {
            1
        } else {
            kept
        };
        let out = slice_of(&chars, 0, end);
        assert(out@ =~= chars@.take(end as int));
        string_of(&out)
    }

    /// The directory that holds `path`, as `parent_path` defines it.
    pub fn parent(self, path: &str) -> (r: Option<String>)
        ensures
            text_of(r) == parent_path(path@, self),
    {
        let chars = chars_of(path);
        let whole = self.strip_separators(&chars, chars.len());
        assert(chars@.take(chars.len() as int) =~= chars@);
        if whole == 0 {
            return None;
        }
        let ghost stem = chars@.take(whole as int);
        let mut cut: usize = whole;
        assert(stem.take(whole as int) =~= stem);
        while cut > 0 && !self.is_separator(chars[cut - 1])
            invariant
                cut <= whole <= chars.len(),
                stem == chars@.take(whole as int),
                directory_length(stem, self) == directory_length(stem.take(cut as int), self),
            decreases cut,
        {
            proof {
                let head = stem.take(cut as int);
                assert(head.drop_last() =~= stem.take(cut - 1));
                assert(head.last() == chars@[cut - 1]);
            }
            cut -= 1;
        }
        proof {
            let head = stem.take(cut as int);
            if cut > 0 {
                assert(head.last() == chars@[cut - 1]);
            }
            assert(directory_length(head, self) == cut);
            assert(stem.take(cut as int) =~= chars@.take(cut as int));
        }
        if cut == 0 {
            return Some(String::new());
        }
        let directory = self.strip_separators(&chars, cut);
        if directory == 0 {
            let root = slice_of(&chars, 0, 1);
            assert(root@ =~= path@.take(1));
            Some(string_of(&root))
        } else {
            let kept = slice_of(&chars, 0, directory);
            assert(kept@ =~= chars@.take(directory as int));
            Some(string_of(&kept))
        }
    }

    /// The path of the runtime's launcher below the installation root `root`.
    pub fn java_executable(self, root: &str) -> (r: String)
        ensures
            r@ == self.java_path(root@),
    {
        let bin = self.join(root, "bin");
        let name = self.java_executable_name();
        self.join(bin.as_str(), name.as_str())
    }

    /// The path of the compiler's launcher below the installation root `root`.
    pub fn javac_executable(self, root: &str) -> (r: String)
        ensures
            r@ == self.javac_path(root@),
    {
        let bin = self.join(root, "bin");
        let name = self.javac_executable_name();
        self.join(bin.as_str(), name.as_str())
    }
}

} // verus!
