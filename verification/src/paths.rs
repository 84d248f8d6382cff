use vstd::prelude::*;
use crate::manifest::{distinct_names, texts};

verus! {

/// `rel` appended to `base` as a Unix path: an absolute `rel` replaces
/// `base`, and a separator is put between them where `base` does not end in one.
pub open spec fn joined(base: Seq<char>, rel: Seq<char>) -> Seq<char> {
    if rel.len() > 0 && rel[0] == '/' {
        rel
    } else if base.len() > 0 && base.last() != '/' {
        base + seq!['/'] + rel
    } else {
        base + rel
    }
}

/// `s` begins with `prefix`.
pub open spec fn starts_with(s: Seq<char>, prefix: Seq<char>) -> bool {
    prefix.len() <= s.len() && s.take(prefix.len() as int) == prefix
}

/// `s` ends with `suffix`.
pub open spec fn ends_with(s: Seq<char>, suffix: Seq<char>) -> bool {
    suffix.len() <= s.len() && s.skip(s.len() - suffix.len()) == suffix
}

/// Joining follows `Path::join` on Unix: an absolute path replaces the base;
/// otherwise exactly one separator stands between a non-empty base and the
/// relative path, and joining onto an empty base gives the relative path.
pub proof fn law_join_puts_one_separator(base: Seq<char>, rel: Seq<char>)
    ensures
        rel.len() > 0 && rel[0] == '/' ==> joined(base, rel) == rel,
        !(rel.len() > 0 && rel[0] == '/') && base.len() > 0 && base.last() != '/' ==> joined(base, rel)
            == base + seq!['/'] + rel,
        !(rel.len() > 0 && rel[0] == '/') && base.len() > 0 && base.last() == '/' ==> joined(base, rel)
            == base + rel,
        !(rel.len() > 0 && rel[0] == '/') && base.len() == 0 ==> joined(base, rel) == rel,
        !(rel.len() > 0 && rel[0] == '/') ==> starts_with(joined(base, rel), base) && ends_with(
            joined(base, rel),
            rel,
        ),
{
    let j = joined(base, rel);
    if !(rel.len() > 0 && rel[0] == '/') {
        if base.len() > 0 && base.last() != '/' {
            assert(j.take(base.len() as int) =~= base);
            assert(j.skip(j.len() - rel.len()) =~= rel);
        } else {
            assert(j.take(base.len() as int) =~= base);
            assert(j.skip(j.len() - rel.len()) =~= rel);
        }
    }
}

/// Whether `s` begins with `prefix`, compared character by character.
pub fn has_prefix(s: &str, prefix: &str) -> (res: bool)
    ensures
        res == starts_with(s@, prefix@),
{
    let n = s.unicode_len();
    let m = prefix.unicode_len();
    if m > n {
        return false;
    }
    let mut i: usize = 0;
    while i < m
        invariant
            m <= n,
            n == s@.len(),
            m == prefix@.len(),
            i <= m,
            forall|j: int| 0 <= j < i ==> s@[j] == prefix@[j],
        decreases m - i,
    {
        if s.get_char(i) != prefix.get_char(i) {
            assert(s@.take(m as int)[i as int] != prefix@[i as int]);
            return false;
        }
        i = i + 1;
    }
    assert(s@.take(m as int) =~= prefix@);
    true
}

/// Whether `s` ends with `suffix`, compared character by character.
pub fn has_suffix(s: &str, suffix: &str) -> (res: bool)
    ensures
        res == ends_with(s@, suffix@),
{
    let n = s.unicode_len();
    let m = suffix.unicode_len();
    if m > n {
        return false;
    }
    let start = n - m;
    let mut i: usize = 0;
    while i < m
        invariant
            m <= n,
            start == n - m,
            n == s@.len(),
            m == suffix@.len(),
            i <= m,
            forall|j: int| 0 <= j < i ==> s@[start + j] == suffix@[j],
        decreases m - i,
    {
        if s.get_char(start + i) != suffix.get_char(i) {
            assert(s@.skip(start as int)[i as int] != suffix@[i as int]);
            return false;
        }
        i = i + 1;
    }
    assert(s@.skip(start as int) =~= suffix@);
    true
}

/// Appends `rel` to `base` as `Path::join` does on Unix.
pub fn join_path(base: &str, rel: &str) -> (res: String)
    ensures
        res@ == joined(base@, rel@),
{
    let rel_len = rel.unicode_len();
    if rel_len > 0 && rel.get_char(0) == '/' {
        return String::from_str(rel);
    }
    let base_len = base.unicode_len();
    let mut out = String::from_str(base);
    if base_len > 0 && base.get_char(base_len - 1) != '/' {
        let sep = "/";
        proof {
            reveal_strlit("/");
        }
        out.append(sep);
    }
    out.append(rel);
    out
}

/// Position of the last `.` in `name`.
pub open spec fn last_dot(name: Seq<char>) -> Option<int> {
    if exists|k: int| 0 <= k < name.len() && name[k] == '.' {
        Some(
            choose|k: int|
                0 <= k < name.len() && name[k] == '.' && forall|j: int|
                    k < j < name.len() ==> name[j] != '.',
        )
    } else {
        None
    }
}

/// The extension of a file name, as `Path::extension` documents it: none for
/// `..`, none without an embedded `.`, none for a name that begins with `.`
/// and has no other, and otherwise the part after the final `.`.
pub open spec fn extension_of(name: Seq<char>) -> Option<Seq<char>> {
    if name == seq!['.', '.'] {
        None
    } else {
        match last_dot(name) {
            Some(k) => if k == 0 {
                None
            } else {
                Some(name.skip(k + 1))
            },
            None => None,
        }
    }
}

/// Whether the file name `name` has the extension `ext`.
pub fn has_extension(name: &str, ext: &str) -> (res: bool)
    ensures
        res == (extension_of(name@) == Some(ext@)),
{
    let n = name.unicode_len();
    if n == 2 && name.get_char(0) == '.' && name.get_char(1) == '.' {
        assert(name@ =~= seq!['.', '.']);
        return false;
    }
    assert(name@ != seq!['.', '.']);
    let mut k: usize = n;
    while k > 0 && name.get_char(k - 1) != '.'
        invariant
            k <= n,
            n == name@.len(),
            forall|j: int| k <= j < n ==> name@[j] != '.',
        decreases k,
    {
        k = k - 1;
    }
    if k == 0 {
        assert(last_dot(name@) is None);
        return false;
    }
    let dot = k - 1;
    proof {
        assert(name@[dot as int] == '.');
        let d = last_dot(name@)->0;
        assert(d == dot) by {
            if d < dot {
                assert(name@[dot as int] != '.');
            }
        }
    }
    if dot == 0 {
        return false;
    }
    let tail = name.substring_char(dot + 1, n);
    assert(tail@ =~= name@.skip(dot + 1));
    assert(extension_of(name@) == Some(tail@));
    let tail_len = tail.unicode_len();
    let ext_len = ext.unicode_len();
    if tail_len != ext_len {
        return false;
    }
    let mut i: usize = 0;
    while i < ext_len
        invariant
            i <= ext_len,
            tail_len == ext_len,
            extension_of(name@) == Some(tail@),
            tail@.len() == tail_len,
            ext@.len() == ext_len,
            forall|j: int| 0 <= j < i ==> tail@[j] == ext@[j],
        decreases ext_len - i,
    {
        if tail.get_char(i) != ext.get_char(i) {
            assert(tail@ != ext@);
            return false;
        }
        i = i + 1;
    }
    assert(tail@ =~= ext@);
    true
}

/// The paths, relative to the build directory, of the WebAssembly components
/// among the entries of the directory `target`: `target/name` for each entry
/// whose extension is `wasm`, in the order given.
pub open spec fn wasm_component_paths(target: Seq<char>, names: Seq<Seq<char>>) -> Seq<Seq<char>>
    decreases names.len(),
{
    if names.len() == 0 {
        Seq::empty()
    } else {
        let rest = wasm_component_paths(target, names.drop_last());
        if extension_of(names.last()) == Some(seq!['w', 'a', 's', 'm']) {
            rest.push(joined(target, names.last()))
        } else {
            rest
        }
    }
}

/// Every component path is the target's directory joined with the name of a
/// listed entry whose extension is `wasm`.
pub proof fn law_component_paths_are_wasm_entries(target: Seq<char>, names: Seq<Seq<char>>, i: int)
    requires
        0 <= i < wasm_component_paths(target, names).len(),
    ensures
        exists|j: int|
            0 <= j < names.len() && extension_of(#[trigger] names[j]) == Some(seq!['w', 'a', 's', 'm'])
                && wasm_component_paths(target, names)[i] == joined(target, names[j]),
    decreases names.len(),
{
    let rest = wasm_component_paths(target, names.drop_last());
    if i < rest.len() {
        law_component_paths_are_wasm_entries(target, names.drop_last(), i);
        let j = choose|j: int|
            0 <= j < names.drop_last().len() && extension_of(#[trigger] names.drop_last()[j])
                == Some(seq!['w', 'a', 's', 'm']) && rest[i] == joined(target, names.drop_last()[j]);
        assert(names[j] == names.drop_last()[j]);
    } else {
        let j = names.len() - 1;
        assert(names[j] == names.last());
    }
}

/// Every listed entry whose extension is `wasm` gives a component path: the
/// target's directory joined with its name.
pub proof fn law_every_wasm_entry_is_a_component(target: Seq<char>, names: Seq<Seq<char>>, j: int)
    requires
        0 <= j < names.len(),
        extension_of(names[j]) == Some(seq!['w', 'a', 's', 'm']),
    ensures
        wasm_component_paths(target, names).contains(joined(target, names[j])),
    decreases names.len(),
{
    let init = names.drop_last();
    let rest = wasm_component_paths(target, init);
    if j < names.len() - 1 {
        assert(init[j] == names[j]);
        law_every_wasm_entry_is_a_component(target, init, j);
        let k = choose|k: int| 0 <= k < rest.len() && rest[k] == joined(target, names[j]);
        if extension_of(names.last()) == Some(seq!['w', 'a', 's', 'm']) {
            assert(rest.push(joined(target, names.last()))[k] == rest[k]);
        }
    } else {
        let r = rest.push(joined(target, names.last()));
        assert(r[rest.len() as int] == joined(target, names[j]));
    }
}

/// The component paths of a build target, given the names of the entries of
/// its directory in the order they were listed.
pub fn component_paths(target: &str, entry_names: &Vec<String>) -> (res: Vec<String>)
    ensures
        texts(res@) == wasm_component_paths(target@, texts(entry_names@)),
{
    let wasm = "wasm";
    proof {
        reveal_strlit("wasm");
    }
    let mut out: Vec<String> = Vec::new();
    let mut i: usize = 0;
    while i < entry_names.len()
        invariant
            i <= entry_names@.len(),
            wasm@ == seq!['w', 'a', 's', 'm'],
            texts(out@) == wasm_component_paths(target@, texts(entry_names@).take(i as int)),
        decreases entry_names.len() - i,
    {
        let name = entry_names[i].as_str();
        proof {
            let names = texts(entry_names@);
            assert(names.take(i + 1).drop_last() =~= names.take(i as int));
            assert(names.take(i + 1).last() == name@);
        }
        if has_extension(name, wasm) {
            let p = join_path(target, name);
            out.push(p);
            assert(texts(out@) =~= texts(out@.drop_last()).push(p@));
        }
        i = i + 1;
    }
    assert(texts(entry_names@).take(entry_names@.len() as int) =~= texts(entry_names@));
    out
}

/// Where a project is read from, as decided by the text given for it.
#[derive(Clone, Debug, PartialEq)]
pub enum ProjectPathSource {
    /// An `http://`, `https://` or `file:/` URL.
    Url(String),
    /// A path on the local file system.
    Local(String),
    /// No path was given: the current directory.
    CurrentDirectory,
}

/// The text is a URL that a project can be read from.
pub open spec fn is_project_url(s: Seq<char>) -> bool {
    starts_with(s, "http://"@) || starts_with(s, "https://"@) || starts_with(s, "file:/"@)
}

/// Exactly the texts that begin with `http://`, `https://` or `file:/` are
/// project URLs.
pub proof fn law_project_urls_by_scheme(s: Seq<char>)
    ensures
        starts_with(s, "http://"@) ==> is_project_url(s),
        starts_with(s, "https://"@) ==> is_project_url(s),
        starts_with(s, "file:/"@) ==> is_project_url(s),
        !starts_with(s, "http://"@) && !starts_with(s, "https://"@) && !starts_with(s, "file:/"@)
            ==> !is_project_url(s),
{
}

/// Decides how a project path given on the command line is read.
pub fn classify_project_path(project_path: Option<String>) -> (res: ProjectPathSource)
    ensures
        match project_path {
            Some(p) => if is_project_url(p@) {
                res == ProjectPathSource::Url(p)
            } else {
                res == ProjectPathSource::Local(p)
            },
            None => res == ProjectPathSource::CurrentDirectory,
        },
{
    match project_path {
        Some(p) => {
            if has_prefix(p.as_str(), "http://") || has_prefix(p.as_str(), "https://")
                || has_prefix(p.as_str(), "file:/") {
                ProjectPathSource::Url(p)
            } else {
                ProjectPathSource::Local(p)
            }
        },
        None => ProjectPathSource::CurrentDirectory,
    }
}

/// Among entries with distinct names, the lookup finds the one entry with the
/// name: the list stands for the map from ember names to URLs.
pub proof fn law_lookup_finds_the_named_entry(urls: Seq<(String, String)>, name: Seq<char>, i: int)
    requires
        distinct_names(urls),
        0 <= i < urls.len(),
        urls[i].0@ == name,
    ensures
        first_entry_for(urls, name) == Some(i),
{
    assert(is_first_entry_for(urls, name, i)) by {
        assert forall|j: int| 0 <= j < i implies (#[trigger] urls[j]).0@ != name by {
            assert(urls[j].0@ != urls[i].0@);
        }
    }
    let k = first_entry_for(urls, name)->0;
    assert(k == i) by {
        if k != i {
            assert(urls[k].0@ != urls[i].0@);
        }
    }
}

/// A file of an ember with a URL is found at that URL, a `/`, and the path;
/// a file of an ember without one is found by its path alone.
pub proof fn law_file_location_text(urls: Seq<(String, String)>, name: Seq<char>, path: Seq<char>)
    ensures
        first_entry_for(urls, name) matches Some(i) ==> file_location(urls, name, path) == (
            true,
            urls[i].1@ + seq!['/'] + path,
        ),
        (forall|i: int| 0 <= i < urls.len() ==> (#[trigger] urls[i]).0@ != name) ==> file_location(
            urls,
            name,
            path,
        ) == (false, path),
{
    if first_entry_for(urls, name) is Some {
        let i = choose|i: int| is_first_entry_for(urls, name, i);
        assert(urls[i].0@ == name);
    }
}

/// Where a file of an ember is fetched from.
#[derive(Clone, Debug, PartialEq)]
pub enum FileLocation {
    /// Under the URL the ember is served from.
    Url(String),
    /// As a global asset key.
    AssetKey(String),
}

/// Index of the first entry for `name` in a list of (ember name, URL).
pub open spec fn first_entry_for(urls: Seq<(String, String)>, name: Seq<char>) -> Option<int> {
    if exists|i: int| is_first_entry_for(urls, name, i) {
        Some(choose|i: int| is_first_entry_for(urls, name, i))
    } else {
        None
    }
}

pub open spec fn is_first_entry_for(urls: Seq<(String, String)>, name: Seq<char>, i: int) -> bool {
    &&& 0 <= i < urls.len()
    &&& urls[i].0@ == name
    &&& forall|j: int| 0 <= j < i ==> (#[trigger] urls[j]).0@ != name
}

/// The location of `path` within the ember `ember_name`: under the ember's
/// URL (`{url}/{path}`) where it has one, else the path as a global asset key.
pub open spec fn file_location(urls: Seq<(String, String)>, ember_name: Seq<char>, path: Seq<char>) -> (
    bool,
    Seq<char>,
) {
    match first_entry_for(urls, ember_name) {
        Some(i) => (true, urls[i].1@ + seq!['/'] + path),
        None => (false, path),
    }
}

impl FileLocation {
    /// Whether the location is a URL, and its text.
    pub open spec fn model(self) -> (bool, Seq<char>) {
        match self {
            FileLocation::Url(u) => (true, u@),
            FileLocation::AssetKey(k) => (false, k@),
        }
    }
}

fn find_entry(urls: &Vec<(String, String)>, name: &str) -> (res: Option<usize>)
    ensures
        res matches Some(i) ==> i < urls@.len() && first_entry_for(urls@, name@) == Some(i as int),
        res is None ==> first_entry_for(urls@, name@) is None,
{
    let key = String::from_str(name);
    let mut i: usize = 0;
    while i < urls.len()
        invariant
            i <= urls@.len(),
            key@ == name@,
            forall|j: int| 0 <= j < i ==> (#[trigger] urls@[j]).0@ != name@,
        decreases urls.len() - i,
    {
        if urls[i].0 == key {
            proof {
                assert(is_first_entry_for(urls@, name@, i as int));
                let k = first_entry_for(urls@, name@)->0;
                assert(k == i) by {
                    if k < i {
                        assert(urls@[k].0@ != name@);
                    } else if k > i {
                        assert(urls@[i as int].0@ != name@);
                    }
                }
            }
            return Some(i);
        }
        i = i + 1;
    }
    None
}

/// Locates a file of an ember, given the URLs the embers are served from.
pub fn ember_file_location(urls: &Vec<(String, String)>, ember_name: &str, path: &str) -> (res: FileLocation)
    ensures
        res.model() == file_location(urls@, ember_name@, path@),
{
    match find_entry(urls, ember_name) {
        Some(i) => {
            let mut u = urls[i].1.clone();
            let sep = "/";
            proof {
                reveal_strlit("/");
            }
            u.append(sep);
            u.append(path);
            FileLocation::Url(u)
        },
        None => FileLocation::AssetKey(String::from_str(path)),
    }
}

/// Position of the last occurrence of `c` in `s`.
pub open spec fn last_position(s: Seq<char>, c: char) -> Option<int>
    decreases s.len(),
{
    if s.len() == 0 {
        None
    } else if s.last() == c {
        Some(s.len() - 1)
    } else {
        last_position(s.drop_last(), c)
    }
}

proof fn lemma_last_position(s: Seq<char>, c: char)
    ensures
        last_position(s, c) matches Some(k) ==> 0 <= k < s.len() && s[k] == c && forall|j: int|
            k < j < s.len() ==> s[j] != c,
        last_position(s, c) is None ==> forall|j: int| 0 <= j < s.len() ==> s[j] != c,
    decreases s.len(),
{
    if s.len() > 0 {
        lemma_last_position(s.drop_last(), c);
        if s.last() != c {
            assert forall|j: int| 0 <= j < s.len() - 1 implies s[j] == s.drop_last()[j] by {}
        }
    }
}

/// The last component of a Unix path, as `Path::file_name` finds it: trailing
/// separators and `.` components are passed over; none for a path that ends
/// in `..`, is empty, or is only a root or `.`.
pub open spec fn file_name_of(p: Seq<char>) -> Option<Seq<char>>
    decreases p.len(),
{
    if p.len() == 0 {
        None
    } else if p.last() == '/' {
        file_name_of(p.drop_last())
    } else {
        match last_position(p, '/') {
            Some(k) => {
                let comp = p.skip(k + 1);
                if comp == seq!['.'] {
                    if 0 <= k < p.len() {
                        file_name_of(p.take(k))
                    } else {
                        None
                    }
                } else if comp == seq!['.', '.'] {
                    None
                } else {
                    Some(comp)
                }
            },
            None => if p == seq!['.'] || p == seq!['.', '.'] {
                None
            } else {
                Some(p)
            },
        }
    }
}

/// The file name of a path is its last component: for a directory path
/// followed by `/` and a plain name (not empty, no `/`, not `.` or `..`), the
/// file name is that name, as it is for the plain name on its own; a path
/// that ends in `..` has none.
pub proof fn law_file_name_is_the_last_component(dir: Seq<char>, name: Seq<char>)
    requires
        name.len() > 0,
        !name.contains('/'),
        name != seq!['.'],
        name != seq!['.', '.'],
    ensures
        file_name_of(dir + seq!['/'] + name) == Some(name),
        file_name_of(name) == Some(name),
        file_name_of(dir + seq!['/', '.', '.']) is None,
{
    let p = dir + seq!['/'] + name;
    lemma_last_position(p, '/');
    lemma_last_position(name, '/');
    assert(p[dir.len() as int] == '/');
    assert(p.last() == name.last());
    assert(name.last() != '/') by {
        assert(name[name.len() - 1] == name.last());
    }
    let k = last_position(p, '/')->0;
    assert(k == dir.len()) by {
        if k > dir.len() {
            assert(name[k - dir.len() - 1] == p[k]);
        }
    }
    assert(p.skip(k + 1) =~= name);
    if last_position(name, '/') is Some {
        let i = last_position(name, '/')->0;
        assert(name[i] == '/');
    }
    let q = dir + seq!['/', '.', '.'];
    lemma_last_position(q, '/');
    let kq = last_position(q, '/')->0;
    assert(q[dir.len() as int] == '/');
    assert(kq == dir.len()) by {
        if kq > dir.len() {
            assert(q[kq] == '.');
        }
    }
    assert(q.skip(kq + 1) =~= seq!['.', '.']);
}

/// The stem of a file name, as `Path::file_stem` documents it: the whole name
/// when it has no embedded `.` (or only a leading one), else the part before
/// the final `.`.
pub open spec fn stem_of(name: Seq<char>) -> Seq<char> {
    match last_dot(name) {
        Some(k) => if k == 0 {
            name
        } else {
            name.take(k)
        },
        None => name,
    }
}

/// The stem of the last component of a path.
pub open spec fn file_stem_of(p: Seq<char>) -> Option<Seq<char>> {
    match file_name_of(p) {
        Some(name) => Some(stem_of(name)),
        None => None,
    }
}

fn last_slash(p: &str, end: usize) -> (res: Option<usize>)
    requires
        end <= p@.len(),
    ensures
        res matches Some(k) ==> k < end && last_position(p@.take(end as int), '/') == Some(k as int),
        res is None ==> last_position(p@.take(end as int), '/') is None,
{
    proof {
        lemma_last_position(p@.take(end as int), '/');
    }
    let mut k: usize = end;
    while k > 0 && p.get_char(k - 1) != '/'
        invariant
            k <= end <= p@.len(),
            forall|j: int| k <= j < end ==> p@[j] != '/',
        decreases k,
    {
        k = k - 1;
    }
    if k == 0 {
        proof {
            lemma_last_position(p@.take(end as int), '/');
            if let Some(x) = last_position(p@.take(end as int), '/') {
                assert(p@.take(end as int)[x] == '/');
            }
        }
        None
    } else {
        proof {
            let t = p@.take(end as int);
            if let Some(x) = last_position(t, '/') {
                if x < k - 1 {
                    assert(t[k - 1] == '/');
                }
                if x > k - 1 {
                    assert(t[x] == '/');
                }
            } else {
                assert(t[k - 1] == '/');
            }
        }
        Some(k - 1)
    }
}

/// The last component of a path, as `Path::file_name` finds it.
pub fn file_name(p: &str) -> (res: Option<String>)
    ensures
        match file_name_of(p@) {
            Some(n) => res matches Some(r) && r@ == n,
            None => res is None,
        },
{
    let mut end: usize = p.unicode_len();
    assert(p@.take(end as int) =~= p@);
    loop
        invariant
            end <= p@.len(),
            file_name_of(p@) == file_name_of(p@.take(end as int)),
        decreases end,
    {
        let ghost t = p@.take(end as int);
        if end == 0 {
            return None;
        }
        if p.get_char(end - 1) == '/' {
            assert(t.drop_last() =~= p@.take(end - 1));
            end = end - 1;
        } else {
            let slash = last_slash(p, end);
            assert(t.len() > 0 && t.last() != '/');
            let start: usize = match slash {
                Some(k) => k + 1,
                None => 0,
            };
            let comp = p.substring_char(start, end);
            assert(comp@ =~= t.skip(start as int));
            let n = comp.unicode_len();
            let is_dot = n == 1 && comp.get_char(0) == '.';
            let is_dot_dot = n == 2 && comp.get_char(0) == '.' && comp.get_char(1) == '.';
            if is_dot {
                assert(comp@ =~= seq!['.']);
                match slash {
                    Some(k) => {
                        assert(t.take(k as int) =~= p@.take(k as int));
                        end = k;
                    },
                    None => {
                        return None;
                    },
                }
            } else if is_dot_dot {
                assert(comp@ =~= seq!['.', '.']);
                return None;
            } else {
                assert(comp@ != seq!['.']);
                assert(comp@ != seq!['.', '.']);
                proof {
                    match slash {
                        Some(k) => {
                            assert(last_position(t, '/') == Some(k as int));
                            assert(file_name_of(t) == Some(comp@));
                        },
                        None => {
                            assert(t.skip(0) =~= t);
                            assert(last_position(t, '/') is None);
                            assert(file_name_of(t) == Some(comp@));
                        },
                    }
                }
                return Some(String::from_str(comp));
            }
        }
    }
}

/// The stem of the last component of a path, as `Path::file_stem` finds it.
pub fn file_stem(p: &str) -> (res: Option<String>)
    ensures
        match file_stem_of(p@) {
            Some(n) => res matches Some(r) && r@ == n,
            None => res is None,
        },
{
    let name = match file_name(p) {
        Some(n) => n,
        None => {
            return None;
        },
    };
    let s = name.as_str();
    let n = s.unicode_len();
    let mut k: usize = n;
    while k > 0 && s.get_char(k - 1) != '.'
        invariant
            k <= n,
            n == s@.len(),
            forall|j: int| k <= j < n ==> s@[j] != '.',
        decreases k,
    {
        k = k - 1;
    }
    if k <= 1 {
        proof {
            if k == 0 {
                assert(last_dot(s@) is None);
            } else {
                let d = last_dot(s@)->0;
                assert(s@[0] == '.');
                assert(d == 0);
            }
        }
        return Some(name);
    }
    proof {
        let d = last_dot(s@)->0;
        assert(s@[k - 1] == '.');
        assert(d == k - 1) by {
            if d < k - 1 {
                assert(s@[k - 1] != '.');
            }
        }
    }
    let stem = s.substring_char(0, k - 1);
    assert(stem@ =~= s@.take(k - 1));
    Some(String::from_str(stem))
}

/// The extension of a file name, as `Path::extension` documents it.
pub fn file_extension(name: &str) -> (res: Option<String>)
    ensures
        match extension_of(name@) {
            Some(e) => res matches Some(r) && r@ == e,
            None => res is None,
        },
{
    let n = name.unicode_len();
    if n == 2 && name.get_char(0) == '.' && name.get_char(1) == '.' {
        assert(name@ =~= seq!['.', '.']);
        return None;
    }
    assert(name@ != seq!['.', '.']);
    let mut k: usize = n;
    while k > 0 && name.get_char(k - 1) != '.'
        invariant
            k <= n,
            n == name@.len(),
            forall|j: int| k <= j < n ==> name@[j] != '.',
        decreases k,
    {
        k = k - 1;
    }
    if k == 0 {
        assert(last_dot(name@) is None);
        return None;
    }
    let dot = k - 1;
    proof {
        let d = last_dot(name@)->0;
        assert(name@[dot as int] == '.');
        assert(d == dot) by {
            if d < dot {
                assert(name@[dot as int] != '.');
            }
        }
    }
    if dot == 0 {
        return None;
    }
    let tail = name.substring_char(dot + 1, n);
    assert(tail@ =~= name@.skip(dot + 1));
    Some(String::from_str(tail))
}

/// What an imported asset file is, by its extension.
#[derive(Clone, Copy, Debug, PartialEq, Eq, Structural)]
pub enum ImportKind {
    /// `wav`, `mp3` or `ogg`.
    Audio,
    /// `fbx`, `glb`, `gltf` or `obj`.
    Model,
    /// `jpg`, `png`, `gif` or `webp`.
    Texture,
    /// Any other extension.
    Unsupported,
    /// No extension.
    Unknown,
}

/// The kind of an asset file with the given extension, if it has one.
pub open spec fn import_kind_of(ext: Option<Seq<char>>) -> ImportKind {
    match ext {
        None => ImportKind::Unknown,
        Some(e) => if e == "wav"@ || e == "mp3"@ || e == "ogg"@ {
            ImportKind::Audio
        } else if e == "fbx"@ || e == "glb"@ || e == "gltf"@ || e == "obj"@ {
            ImportKind::Model
        } else if e == "jpg"@ || e == "png"@ || e == "gif"@ || e == "webp"@ {
            ImportKind::Texture
        } else {
            ImportKind::Unsupported
        },
    }
}

proof fn lemma_last_dot(name: Seq<char>)
    ensures
        last_dot(name) == last_position(name, '.'),
        last_dot(name) matches Some(k) ==> 0 <= k < name.len() && name[k] == '.' && forall|j: int|
            k < j < name.len() ==> name[j] != '.',
{
    lemma_last_position(name, '.');
    match last_position(name, '.') {
        Some(k) => {
            assert(0 <= k < name.len() && name[k] == '.');
            let d = last_dot(name)->0;
            assert(d == k) by {
                if d < k {
                    assert(name[k] != '.');
                } else if d > k {
                    assert(name[d] != '.');
                }
            }
        },
        None => {},
    }
}

/// A file name with an extension is its stem, a `.`, and the extension; the
/// extension holds no `.`, and the stem is not empty.
pub proof fn law_stem_and_extension_make_the_name(name: Seq<char>)
    ensures
        extension_of(name) matches Some(e) ==> stem_of(name) + seq!['.'] + e == name && !e.contains(
            '.',
        ) && stem_of(name).len() > 0,
        extension_of(name) is None && name != seq!['.', '.'] ==> stem_of(name) == name,
{
    lemma_last_dot(name);
    if name != seq!['.', '.'] {
        if let Some(k) = last_dot(name) {
            if k != 0 {
                let e = name.skip(k + 1);
                assert(name.take(k) + seq!['.'] + e =~= name);
                if e.contains('.') {
                    let j = choose|j: int| 0 <= j < e.len() && e[j] == '.';
                    assert(name[k + 1 + j] == '.');
                }
            }
        }
    }
}

/// The extension of the last component of a path.
pub open spec fn path_extension_of(p: Seq<char>) -> Option<Seq<char>> {
    match file_name_of(p) {
        Some(name) => extension_of(name),
        None => None,
    }
}

/// Asset files are classified by extension alone, whatever directory they are
/// in: `wav`, `mp3` and `ogg` files are audio, `fbx`, `glb`, `gltf` and `obj`
/// files are models, `jpg`, `png`, `gif` and `webp` files are textures, files
/// without an extension are unknown, and every other extension is unsupported.
pub proof fn law_imports_are_classified_by_extension(p: Seq<char>)
    ensures
        path_extension_of(p) == Some("wav"@) ==> import_kind_of(path_extension_of(p)) == ImportKind::Audio,
        path_extension_of(p) == Some("mp3"@) ==> import_kind_of(path_extension_of(p)) == ImportKind::Audio,
        path_extension_of(p) == Some("ogg"@) ==> import_kind_of(path_extension_of(p)) == ImportKind::Audio,
        path_extension_of(p) == Some("fbx"@) ==> import_kind_of(path_extension_of(p)) == ImportKind::Model,
        path_extension_of(p) == Some("glb"@) ==> import_kind_of(path_extension_of(p)) == ImportKind::Model,
        path_extension_of(p) == Some("gltf"@) ==> import_kind_of(path_extension_of(p)) == ImportKind::Model,
        path_extension_of(p) == Some("obj"@) ==> import_kind_of(path_extension_of(p)) == ImportKind::Model,
        path_extension_of(p) == Some("jpg"@) ==> import_kind_of(path_extension_of(p)) == ImportKind::Texture,
        path_extension_of(p) == Some("png"@) ==> import_kind_of(path_extension_of(p)) == ImportKind::Texture,
        path_extension_of(p) == Some("gif"@) ==> import_kind_of(path_extension_of(p)) == ImportKind::Texture,
        path_extension_of(p) == Some("webp"@) ==> import_kind_of(path_extension_of(p)) == ImportKind::Texture,
        path_extension_of(p) is None <==> import_kind_of(path_extension_of(p)) == ImportKind::Unknown,
        import_kind_of(path_extension_of(p)) == ImportKind::Unsupported ==> (path_extension_of(p) matches Some(e)
            && e != "wav"@ && e != "mp3"@ && e != "ogg"@ && e != "fbx"@ && e != "glb"@ && e != "gltf"@
            && e != "obj"@ && e != "jpg"@ && e != "png"@ && e != "gif"@ && e != "webp"@),
{
    reveal_strlit("wav");
    reveal_strlit("mp3");
    reveal_strlit("ogg");
    reveal_strlit("fbx");
    reveal_strlit("glb");
    reveal_strlit("gltf");
    reveal_strlit("obj");
    reveal_strlit("jpg");
    reveal_strlit("png");
    reveal_strlit("gif");
    reveal_strlit("webp");
    assert("wav"@ != "mp3"@) by { assert("wav"@[0] != "mp3"@[0]); }
    assert("wav"@ != "ogg"@) by { assert("wav"@[0] != "ogg"@[0]); }
    assert("wav"@ != "fbx"@) by { assert("wav"@[0] != "fbx"@[0]); }
    assert("wav"@ != "glb"@) by { assert("wav"@[0] != "glb"@[0]); }
    assert("wav"@ != "gltf"@) by { assert("wav"@.len() != "gltf"@.len()); }
    assert("wav"@ != "obj"@) by { assert("wav"@[0] != "obj"@[0]); }
    assert("wav"@ != "jpg"@) by { assert("wav"@[0] != "jpg"@[0]); }
    assert("wav"@ != "png"@) by { assert("wav"@[0] != "png"@[0]); }
    assert("wav"@ != "gif"@) by { assert("wav"@[0] != "gif"@[0]); }
    assert("wav"@ != "webp"@) by { assert("wav"@.len() != "webp"@.len()); }
    assert("mp3"@ != "ogg"@) by { assert("mp3"@[0] != "ogg"@[0]); }
    assert("mp3"@ != "fbx"@) by { assert("mp3"@[0] != "fbx"@[0]); }
    assert("mp3"@ != "glb"@) by { assert("mp3"@[0] != "glb"@[0]); }
    assert("mp3"@ != "gltf"@) by { assert("mp3"@.len() != "gltf"@.len()); }
    assert("mp3"@ != "obj"@) by { assert("mp3"@[0] != "obj"@[0]); }
    assert("mp3"@ != "jpg"@) by { assert("mp3"@[0] != "jpg"@[0]); }
    assert("mp3"@ != "png"@) by { assert("mp3"@[0] != "png"@[0]); }
    assert("mp3"@ != "gif"@) by { assert("mp3"@[0] != "gif"@[0]); }
    assert("mp3"@ != "webp"@) by { assert("mp3"@.len() != "webp"@.len()); }
    assert("ogg"@ != "fbx"@) by { assert("ogg"@[0] != "fbx"@[0]); }
    assert("ogg"@ != "glb"@) by { assert("ogg"@[0] != "glb"@[0]); }
    assert("ogg"@ != "gltf"@) by { assert("ogg"@.len() != "gltf"@.len()); }
    assert("ogg"@ != "obj"@) by { assert("ogg"@[1] != "obj"@[1]); }
    assert("ogg"@ != "jpg"@) by { assert("ogg"@[0] != "jpg"@[0]); }
    assert("ogg"@ != "png"@) by { assert("ogg"@[0] != "png"@[0]); }
    assert("ogg"@ != "gif"@) by { assert("ogg"@[0] != "gif"@[0]); }
    assert("ogg"@ != "webp"@) by { assert("ogg"@.len() != "webp"@.len()); }
    assert("fbx"@ != "glb"@) by { assert("fbx"@[0] != "glb"@[0]); }
    assert("fbx"@ != "gltf"@) by { assert("fbx"@.len() != "gltf"@.len()); }
    assert("fbx"@ != "obj"@) by { assert("fbx"@[0] != "obj"@[0]); }
    assert("fbx"@ != "jpg"@) by { assert("fbx"@[0] != "jpg"@[0]); }
    assert("fbx"@ != "png"@) by { assert("fbx"@[0] != "png"@[0]); }
    assert("fbx"@ != "gif"@) by { assert("fbx"@[0] != "gif"@[0]); }
    assert("fbx"@ != "webp"@) by { assert("fbx"@.len() != "webp"@.len()); }
    assert("glb"@ != "gltf"@) by { assert("glb"@.len() != "gltf"@.len()); }
    assert("glb"@ != "obj"@) by { assert("glb"@[0] != "obj"@[0]); }
    assert("glb"@ != "jpg"@) by { assert("glb"@[0] != "jpg"@[0]); }
    assert("glb"@ != "png"@) by { assert("glb"@[0] != "png"@[0]); }
    assert("glb"@ != "gif"@) by { assert("glb"@[1] != "gif"@[1]); }
    assert("glb"@ != "webp"@) by { assert("glb"@.len() != "webp"@.len()); }
    assert("gltf"@ != "obj"@) by { assert("gltf"@.len() != "obj"@.len()); }
    assert("gltf"@ != "jpg"@) by { assert("gltf"@.len() != "jpg"@.len()); }
    assert("gltf"@ != "png"@) by { assert("gltf"@.len() != "png"@.len()); }
    assert("gltf"@ != "gif"@) by { assert("gltf"@.len() != "gif"@.len()); }
    assert("gltf"@ != "webp"@) by { assert("gltf"@[0] != "webp"@[0]); }
    assert("obj"@ != "jpg"@) by { assert("obj"@[0] != "jpg"@[0]); }
    assert("obj"@ != "png"@) by { assert("obj"@[0] != "png"@[0]); }
    assert("obj"@ != "gif"@) by { assert("obj"@[0] != "gif"@[0]); }
    assert("obj"@ != "webp"@) by { assert("obj"@.len() != "webp"@.len()); }
    assert("jpg"@ != "png"@) by { assert("jpg"@[0] != "png"@[0]); }
    assert("jpg"@ != "gif"@) by { assert("jpg"@[0] != "gif"@[0]); }
    assert("jpg"@ != "webp"@) by { assert("jpg"@.len() != "webp"@.len()); }
    assert("png"@ != "gif"@) by { assert("png"@[0] != "gif"@[0]); }
    assert("png"@ != "webp"@) by { assert("png"@.len() != "webp"@.len()); }
    assert("gif"@ != "webp"@) by { assert("gif"@.len() != "webp"@.len()); }
}

fn is_one_of(e: &String, options: &[&str]) -> (res: bool)
    ensures
        res == exists|i: int| 0 <= i < options@.len() && e@ == (#[trigger] options@[i])@,
{
    let mut i: usize = 0;
    while i < options.len()
        invariant
            i <= options@.len(),
            forall|j: int| 0 <= j < i ==> e@ != (#[trigger] options@[j])@,
        decreases options.len() - i,
    {
        let o = String::from_str(options[i]);
        if *e == o {
            return true;
        }
        i = i + 1;
    }
    false
}

/// Decides how an asset file given for import is imported.
pub fn import_kind(path: &str) -> (res: ImportKind)
    ensures
        res == import_kind_of(path_extension_of(path@)),
{
    let ext = match file_name(path) {
        Some(name) => file_extension(name.as_str()),
        None => None,
    };
    match ext {
        None => ImportKind::Unknown,
        Some(e) => {
            let audio: [&str; 3] = ["wav", "mp3", "ogg"];
            let model: [&str; 4] = ["fbx", "glb", "gltf", "obj"];
            let texture: [&str; 4] = ["jpg", "png", "gif", "webp"];
            let a = is_one_of(&e, audio.as_slice());
            let m = is_one_of(&e, model.as_slice());
            let t = is_one_of(&e, texture.as_slice());
            proof {
                assert(a == (e@ == "wav"@ || e@ == "mp3"@ || e@ == "ogg"@)) by {
                    if a {
                        let i = choose|i: int| 0 <= i < 3 && e@ == (#[trigger] audio@[i])@;
                        assert(i == 0 || i == 1 || i == 2);
                    } else {
                        assert(e@ != audio@[0]@ && e@ != audio@[1]@ && e@ != audio@[2]@);
                    }
                }
                assert(m == (e@ == "fbx"@ || e@ == "glb"@ || e@ == "gltf"@ || e@ == "obj"@)) by {
                    if m {
                        let i = choose|i: int| 0 <= i < 4 && e@ == (#[trigger] model@[i])@;
                        assert(i == 0 || i == 1 || i == 2 || i == 3);
                    } else {
                        assert(e@ != model@[0]@ && e@ != model@[1]@ && e@ != model@[2]@ && e@
                            != model@[3]@);
                    }
                }
                assert(t == (e@ == "jpg"@ || e@ == "png"@ || e@ == "gif"@ || e@ == "webp"@)) by {
                    if t {
                        let i = choose|i: int| 0 <= i < 4 && e@ == (#[trigger] texture@[i])@;
                        assert(i == 0 || i == 1 || i == 2 || i == 3);
                    } else {
                        assert(e@ != texture@[0]@ && e@ != texture@[1]@ && e@ != texture@[2]@
                            && e@ != texture@[3]@);
                    }
                }
            }
            if a {
                ImportKind::Audio
            } else if m {
                ImportKind::Model
            } else if t {
                ImportKind::Texture
            } else {
                ImportKind::Unsupported
            }
        },
    }
}

} // verus!
