use vstd::prelude::*;
use crate::paths::{ends_with, file_stem, file_stem_of, has_prefix, has_suffix, starts_with};

verus! {

/// The side a WebAssembly module runs on.
#[derive(Clone, Copy, Debug, PartialEq, Eq, Structural)]
pub enum Target {
    Client,
    Server,
}

impl Target {
    /// The other side.
    pub open spec fn counterpart(self) -> Target {
        match self {
            Target::Client => Target::Server,
            Target::Server => Target::Client,
        }
    }

    /// The name of the side, as it appears in module file names.
    pub open spec fn name(self) -> Seq<char> {
        match self {
            Target::Client => "client"@,
            Target::Server => "server"@,
        }
    }

    /// The other side.
    pub fn other(&self) -> (res: Target)
        ensures
            res == self.counterpart(),
    {
        match self {
            Target::Client => Target::Server,
            Target::Server => Target::Client,
        }
    }

    /// The name of the side.
    pub fn as_str(&self) -> (res: &'static str)
        ensures
            res@ == self.name(),
    {
        match self {
            Target::Client => {
                proof {
                    reveal_strlit("client");
                }
                "client"
            },
            Target::Server => {
                proof {
                    reveal_strlit("server");
                }
                "server"
            },
        }
    }
}

/// `name` without the target's name at its start or, failing that, at its end.
pub open spec fn strip_target(target: Seq<char>, name: Seq<char>) -> Seq<char> {
    if starts_with(name, target) {
        name.skip(target.len() as int)
    } else if ends_with(name, target) {
        name.take(name.len() - target.len())
    } else {
        name
    }
}

/// `s` without its leading underscores.
pub open spec fn trim_start_underscores(s: Seq<char>) -> Seq<char>
    decreases s.len(),
{
    if s.len() > 0 && s[0] == '_' {
        trim_start_underscores(s.drop_first())
    } else {
        s
    }
}

/// `s` without its trailing underscores.
pub open spec fn trim_end_underscores(s: Seq<char>) -> Seq<char>
    decreases s.len(),
{
    if s.len() > 0 && s.last() == '_' {
        trim_end_underscores(s.drop_last())
    } else {
        s
    }
}

/// The name under which a module is paired with its counterpart: its file
/// stem without the target name as prefix or suffix, and without underscores
/// at either end. So `client_module`, `module_client` and `module` agree.
pub open spec fn module_base(target: Seq<char>, stem: Seq<char>) -> Seq<char> {
    trim_end_underscores(trim_start_underscores(strip_target(target, stem)))
}

proof fn lemma_trim_start(s: Seq<char>, a: int)
    requires
        0 <= a <= s.len(),
        forall|j: int| 0 <= j < a ==> s[j] == '_',
        a == s.len() || s[a] != '_',
    ensures
        trim_start_underscores(s) == s.skip(a),
    decreases a,
{
    if a == 0 {
        assert(s.skip(0) =~= s);
    } else {
        lemma_trim_start(s.drop_first(), a - 1);
        assert(s.drop_first().skip(a - 1) =~= s.skip(a));
    }
}

proof fn lemma_trim_end(s: Seq<char>, b: int)
    requires
        0 <= b <= s.len(),
        forall|j: int| b <= j < s.len() ==> s[j] == '_',
        b == 0 || s[b - 1] != '_',
    ensures
        trim_end_underscores(s) == s.take(b),
    decreases s.len() - b,
{
    if b == s.len() {
        assert(s.take(b) =~= s);
    } else {
        lemma_trim_end(s.drop_last(), b);
        assert(s.drop_last().take(b) =~= s.take(b));
    }
}

/// The pairing name of the module with file stem `stem` built for `target`.
pub fn module_base_name(target: &str, stem: &str) -> (res: String)
    ensures
        res@ == module_base(target@, stem@),
{
    let n = stem.unicode_len();
    let t = target.unicode_len();
    let stripped: &str = if has_prefix(stem, target) {
        stem.substring_char(t, n)
    } else if has_suffix(stem, target) {
        stem.substring_char(0, n - t)
    } else {
        stem
    };
    assert(stripped@ =~= strip_target(target@, stem@));
    let len = stripped.unicode_len();
    let mut a: usize = 0;
    while a < len && stripped.get_char(a) == '_'
        invariant
            a <= len,
            len == stripped@.len(),
            forall|j: int| 0 <= j < a ==> stripped@[j] == '_',
        decreases len - a,
    {
        a = a + 1;
    }
    proof {
        lemma_trim_start(stripped@, a as int);
    }
    let mut b: usize = len;
    while b > a && stripped.get_char(b - 1) == '_'
        invariant
            a <= b <= len,
            len == stripped@.len(),
            forall|j: int| b <= j < len ==> stripped@[j] == '_',
        decreases b - a,
    {
        b = b - 1;
    }
    let ghost rest = stripped@.skip(a as int);
    proof {
        if b > a {
            lemma_trim_end(rest, b - a);
            assert(rest.take(b - a) =~= stripped@.subrange(a as int, b as int));
        } else {
            lemma_trim_end(rest, 0);
            assert(rest.take(0) =~= stripped@.subrange(a as int, b as int));
        }
    }
    String::from_str(stripped.substring_char(a, b))
}

/// The pairing name of the module at `component_path` (relative to the
/// ember's build directory) built for `target`; none where the path has no
/// file stem.
pub fn module_pairing_name(target: Target, component_path: &str) -> (res: Option<String>)
    ensures
        match file_stem_of(component_path@) {
            Some(stem) => res matches Some(n) && n@ == module_base(target.name(), stem),
            None => res is None,
        },
{
    match file_stem(component_path) {
        Some(stem) => Some(module_base_name(target.as_str(), stem.as_str())),
        None => None,
    }
}

proof fn lemma_trim_start_result(s: Seq<char>)
    ensures
        trim_start_underscores(s).len() > 0 ==> trim_start_underscores(s)[0] != '_',
        trim_start_underscores(s).len() <= s.len(),
        trim_start_underscores(s).len() > 0 ==> trim_start_underscores(s).last() == s.last(),
        trim_start_underscores(s) == s.skip(s.len() - trim_start_underscores(s).len()),
    decreases s.len(),
{
    if s.len() > 0 && s[0] == '_' {
        lemma_trim_start_result(s.drop_first());
        assert(s.drop_first().skip(s.drop_first().len() - trim_start_underscores(s).len()) =~= s.skip(
            s.len() - trim_start_underscores(s).len(),
        ));
    } else {
        assert(s.skip(0) =~= s);
    }
}

proof fn lemma_trim_end_result(s: Seq<char>)
    ensures
        trim_end_underscores(s).len() > 0 ==> trim_end_underscores(s).last() != '_',
        trim_end_underscores(s).len() <= s.len(),
        trim_end_underscores(s) == s.take(trim_end_underscores(s).len() as int),
    decreases s.len(),
{
    if s.len() > 0 && s.last() == '_' {
        lemma_trim_end_result(s.drop_last());
        assert(s.drop_last().take(trim_end_underscores(s).len() as int) =~= s.take(
            trim_end_underscores(s).len() as int,
        ));
    } else {
        assert(s.take(s.len() as int) =~= s);
    }
}

/// A pairing name never begins or ends with an underscore, and is a piece of
/// the file stem it comes from.
pub proof fn law_pairing_names_are_trimmed(target: Seq<char>, stem: Seq<char>)
    ensures
        module_base(target, stem).len() > 0 ==> module_base(target, stem)[0] != '_'
            && module_base(target, stem).last() != '_',
        module_base(target, stem).len() <= stem.len(),
{
    let a = strip_target(target, stem);
    let b = trim_start_underscores(a);
    lemma_trim_start_result(a);
    lemma_trim_end_result(b);
    let c = trim_end_underscores(b);
    assert(a.len() <= stem.len());
    if c.len() > 0 {
        assert(c[0] == b.take(c.len() as int)[0]);
    }
}

/// A module that was spawned: its side, its pairing name and its entity.
pub type ModuleEntry = (Target, String, u128);

/// The pairing key of an entry.
pub open spec fn key_of(e: ModuleEntry) -> (Target, Seq<char>) {
    (e.0, e.1@)
}

/// The modules by side and pairing name, each entry replacing any earlier
/// one with the same key.
pub open spec fn module_map(entries: Seq<ModuleEntry>) -> Map<(Target, Seq<char>), u128>
    decreases entries.len(),
{
    if entries.len() == 0 {
        Map::empty()
    } else {
        module_map(entries.drop_last()).insert(key_of(entries.last()), entries.last().2)
    }
}

/// The pairs (module, counterpart) of the map: each module whose side's
/// counterpart has a module of the same pairing name.
pub open spec fn paired_modules(m: Map<(Target, Seq<char>), u128>) -> Set<(u128, u128)> {
    Set::new(
        |p: (u128, u128)|
            exists|k: (Target, Seq<char>)|
                #![trigger m.dom().contains(k)]
                m.dom().contains(k) && m.dom().contains((k.0.counterpart(), k.1)) && p == (
                    m[k],
                    m[(k.0.counterpart(), k.1)],
                ),
    )
}

/// Index of the last entry with key `k`.
pub open spec fn last_index(entries: Seq<ModuleEntry>, k: (Target, Seq<char>)) -> Option<int>
    decreases entries.len(),
{
    if entries.len() == 0 {
        None
    } else if key_of(entries.last()) == k {
        Some(entries.len() - 1)
    } else {
        last_index(entries.drop_last(), k)
    }
}

proof fn lemma_last_index(entries: Seq<ModuleEntry>, k: (Target, Seq<char>))
    ensures
        module_map(entries).dom().contains(k) <==> last_index(entries, k) is Some,
        last_index(entries, k) matches Some(i) ==> 0 <= i < entries.len() && key_of(entries[i]) == k
            && module_map(entries)[k] == entries[i].2 && forall|j: int|
            i < j < entries.len() ==> key_of(#[trigger] entries[j]) != k,
    decreases entries.len(),
{
    if entries.len() > 0 {
        let init = entries.drop_last();
        lemma_last_index(init, k);
        if key_of(entries.last()) != k {
            if let Some(i) = last_index(entries, k) {
                assert forall|j: int| i < j < entries.len() implies key_of(#[trigger] entries[j]) != k by {
                    if j < entries.len() - 1 {
                        assert(entries[j] == init[j]);
                    }
                }
                assert(entries[i] == init[i]);
            }
        }
    }
}

fn last_index_of(entries: &Vec<ModuleEntry>, target: Target, name: &String) -> (res: Option<usize>)
    ensures
        match last_index(entries@, (target, name@)) {
            Some(i) => res == Some(i as usize),
            None => res is None,
        },
{
    let mut i: usize = entries.len();
    assert(entries@.take(i as int) =~= entries@);
    while i > 0
        invariant
            i <= entries@.len(),
            last_index(entries@, (target, name@)) == last_index(entries@.take(i as int), (target, name@)),
        decreases i,
    {
        let prefix = Ghost(entries@.take(i as int));
        assert(prefix@.drop_last() =~= entries@.take(i - 1));
        if entries[i - 1].0 == target && entries[i - 1].1 == *name {
            assert(key_of(prefix@.last()) == (target, name@));
            return Some(i - 1);
        }
        i = i - 1;
    }
    None
}

/// Entry `k` is the last one for its key, its counterpart key is mapped in
/// `m`, and `p` is the pair (its entity, the counterpart's entity).
pub open spec fn pair_from_entry(entries: Seq<ModuleEntry>, m: Map<(Target, Seq<char>), u128>, k: int, p: (u128, u128)) -> bool {
    &&& last_index(entries, key_of(entries[k])) == Some(k)
    &&& m.dom().contains((entries[k].0.counterpart(), entries[k].1@))
    &&& p == (entries[k].2, m[(entries[k].0.counterpart(), entries[k].1@)])
}

/// `p` comes from one of the first `n` entries.
pub open spec fn pair_from_prefix(entries: Seq<ModuleEntry>, m: Map<(Target, Seq<char>), u128>, n: int, p: (u128, u128)) -> bool {
    exists|k: int| 0 <= k < n && #[trigger] pair_from_entry(entries, m, k, p)
}

/// Pairs each module with the module of the same pairing name on the other
/// side, the way the modules are keyed by side and name (a later module
/// replacing an earlier one with the same key).
pub fn pair_modules(entries: &Vec<ModuleEntry>) -> (res: Vec<(u128, u128)>)
    ensures
        forall|p: (u128, u128)| res@.contains(p) <==> paired_modules(module_map(entries@)).contains(p),
{
    let ghost m = module_map(entries@);
    let mut out: Vec<(u128, u128)> = Vec::new();
    let mut i: usize = 0;
    while i < entries.len()
        invariant
            i <= entries@.len(),
            m == module_map(entries@),
            forall|p: (u128, u128)| out@.contains(p) <==> pair_from_prefix(entries@, m, i as int, p),
        decreases entries.len() - i,
    {
        let t = entries[i].0;
        let last = last_index_of(entries, t, &entries[i].1);
        let ghost old_out = out@;
        assert(forall|p: (u128, u128)| old_out.contains(p) <==> pair_from_prefix(entries@, m, i as int, p));
        proof {
            lemma_last_index(entries@, key_of(entries@[i as int]));
            lemma_last_index(entries@, (t.counterpart(), entries@[i as int].1@));
        }
        let mut added = false;
        if last == Some(i) {
            if let Some(j) = last_index_of(entries, t.other(), &entries[i].1) {
                out.push((entries[i].2, entries[j].2));
                added = true;
            }
        }
        proof {
            assert forall|p: (u128, u128)|
                out@.contains(p) <==> pair_from_prefix(entries@, m, i + 1, p) by {
                if out@.contains(p) {
                    let idx = choose|idx: int| 0 <= idx < out@.len() && out@[idx] == p;
                    if idx < old_out.len() {
                        assert(old_out[idx] == p);
                        assert(old_out.contains(p));
                        let k = choose|k: int| 0 <= k < i && #[trigger] pair_from_entry(entries@, m, k, p);
                        assert(0 <= k < i + 1 && pair_from_entry(entries@, m, k, p));
                    } else {
                        assert(pair_from_entry(entries@, m, i as int, p));
                    }
                }
                if pair_from_prefix(entries@, m, i + 1, p) {
                    let k = choose|k: int| 0 <= k < i + 1 && #[trigger] pair_from_entry(entries@, m, k, p);
                    if k < i {
                        assert(pair_from_prefix(entries@, m, i as int, p));
                        assert(old_out.contains(p));
                        let idx = choose|idx: int| 0 <= idx < old_out.len() && old_out[idx] == p;
                        assert(out@[idx] == p);
                    } else {
                        assert(added);
                        assert(out@[old_out.len() as int] == p);
                    }
                }
            }
        }
        i = i + 1;
    }
    assert forall|p: (u128, u128)| out@.contains(p) <==> paired_modules(m).contains(p) by {
        if out@.contains(p) {
            let k = choose|k: int| 0 <= k < entries@.len() && #[trigger] pair_from_entry(entries@, m, k, p);
            lemma_last_index(entries@, key_of(entries@[k]));
            assert(m.dom().contains(key_of(entries@[k])));
        }
        if paired_modules(m).contains(p) {
            let key = choose|key: (Target, Seq<char>)|
                #![trigger m.dom().contains(key)]
                m.dom().contains(key) && m.dom().contains((key.0.counterpart(), key.1)) && p == (
                    m[key],
                    m[(key.0.counterpart(), key.1)],
                );
            lemma_last_index(entries@, key);
            let k = last_index(entries@, key)->0;
            assert(key_of(entries@[k]) == key);
            assert(pair_from_entry(entries@, m, k, p));
        }
    }
    out
}

/// A later module replaces an earlier one with the same side and name: after
/// an entry is added, its key maps to its entity, and every other key keeps its
/// module.
pub proof fn law_later_modules_replace_earlier(entries: Seq<ModuleEntry>, e: ModuleEntry, k: (Target, Seq<char>))
    ensures
        module_map(entries.push(e)).dom().contains(key_of(e)),
        module_map(entries.push(e))[key_of(e)] == e.2,
        k != key_of(e) ==> (module_map(entries.push(e)).dom().contains(k) == module_map(entries).dom().contains(k)
            && module_map(entries.push(e))[k] == module_map(entries)[k]),
{
    assert(entries.push(e).drop_last() =~= entries);
}

/// Pairing is mutual: whenever a module is paired with a counterpart, that
/// counterpart is paired with it.
pub proof fn law_pairing_is_mutual(entries: Seq<ModuleEntry>, p: (u128, u128))
    requires
        paired_modules(module_map(entries)).contains(p),
    ensures
        paired_modules(module_map(entries)).contains((p.1, p.0)),
{
    let m = module_map(entries);
    let k = choose|k: (Target, Seq<char>)|
        #![trigger m.dom().contains(k)]
        m.dom().contains(k) && m.dom().contains((k.0.counterpart(), k.1)) && p == (
            m[k],
            m[(k.0.counterpart(), k.1)],
        );
    let k2 = (k.0.counterpart(), k.1);
    assert(k2.0.counterpart() == k.0);
    assert((k2.0.counterpart(), k2.1) == k);
    assert(m.dom().contains(k2) && m.dom().contains((k2.0.counterpart(), k2.1)) && (p.1, p.0) == (
        m[k2],
        m[(k2.0.counterpart(), k2.1)],
    ));
}

/// `client_module`, `module_client` and `module` all pair as `module`: the
/// target's name with an underscore before or after a module name is dropped,
/// for a module name that has no underscore at either end and neither begins
/// nor ends with the target's name.
pub proof fn law_target_affixes_are_dropped(target: Target, m: Seq<char>)
    requires
        !starts_with(m, target.name()),
        !ends_with(m, target.name()),
        m.len() > 0 ==> m[0] != '_' && m.last() != '_',
    ensures
        module_base(target.name(), target.name() + seq!['_'] + m) == m,
        module_base(target.name(), m + seq!['_'] + target.name()) == m,
        module_base(target.name(), m) == m,
{
    reveal_strlit("client");
    reveal_strlit("server");
    let t = target.name();
    assert(t.len() == 6);
    assert(forall|j: int| 0 <= j < t.len() ==> t[j] != '_');
    // `m` on its own
    assert(strip_target(t, m) == m);
    assert(trim_start_underscores(m) == m);
    assert(trim_end_underscores(m) == m);
    // the target as a prefix
    let pre = t + seq!['_'] + m;
    assert(pre.take(t.len() as int) =~= t);
    assert(pre.skip(t.len() as int) =~= seq!['_'] + m);
    assert((seq!['_'] + m).drop_first() =~= m);
    assert(trim_start_underscores(seq!['_'] + m) == trim_start_underscores(m));
    // the target as a suffix
    let suf = m + seq!['_'] + t;
    if starts_with(suf, t) {
        if m.len() >= t.len() {
            assert(m.take(t.len() as int) =~= suf.take(t.len() as int));
        } else {
            assert(suf.take(t.len() as int)[m.len() as int] == '_');
        }
    }
    assert(suf.skip(suf.len() - t.len()) =~= t);
    assert(suf.take(suf.len() - t.len()) =~= m + seq!['_']);
    assert((m + seq!['_']).drop_last() =~= m);
    if m.len() == 0 {
        assert(m + seq!['_'] =~= seq!['_']);
        assert(seq!['_'].drop_first() =~= m);
        assert(trim_start_underscores(seq!['_']) == trim_start_underscores(m));
    } else {
        assert(trim_start_underscores(m + seq!['_']) == m + seq!['_']);
    }
}

/// The kinds of message a module prints.
#[derive(Clone, Copy, Debug, PartialEq, Eq, Structural)]
pub enum MessageType {
    Info,
    Warn,
    Error,
    Stdout,
    Stderr,
}

/// The level a message is logged at.
#[derive(Clone, Copy, Debug, PartialEq, Eq, Structural)]
pub enum LogLevel {
    Error,
    Warn,
    Info,
}

/// The level and label of each kind of message.
pub open spec fn message_level(kind: MessageType) -> LogLevel {
    match kind {
        MessageType::Info => LogLevel::Info,
        MessageType::Warn => LogLevel::Warn,
        MessageType::Error => LogLevel::Error,
        MessageType::Stdout => LogLevel::Info,
        MessageType::Stderr => LogLevel::Info,
    }
}

pub open spec fn message_label(kind: MessageType) -> Seq<char> {
    match kind {
        MessageType::Info => "info"@,
        MessageType::Warn => "warn"@,
        MessageType::Error => "error"@,
        MessageType::Stdout => "stdout"@,
        MessageType::Stderr => "stderr"@,
    }
}

/// Messages are logged at their own level: errors as errors, warnings as
/// warnings, and information and both output streams as information; each
/// kind is labelled with its own name.
pub proof fn law_messages_keep_their_level_and_name()
    ensures
        message_level(MessageType::Error) == LogLevel::Error,
        message_level(MessageType::Warn) == LogLevel::Warn,
        message_level(MessageType::Info) == LogLevel::Info,
        message_level(MessageType::Stdout) == LogLevel::Info,
        message_level(MessageType::Stderr) == LogLevel::Info,
        message_label(MessageType::Error) == "error"@,
        message_label(MessageType::Warn) == "warn"@,
        message_label(MessageType::Info) == "info"@,
        message_label(MessageType::Stdout) == "stdout"@,
        message_label(MessageType::Stderr) == "stderr"@,
{
}

/// `s` without one trailing newline, if it has one.
pub open spec fn without_trailing_newline(s: Seq<char>) -> Seq<char> {
    if s.len() > 0 && s.last() == '\n' {
        s.drop_last()
    } else {
        s
    }
}

/// Exactly one trailing newline is dropped: a message that ends in a newline
/// loses that one character, any other message is kept whole.
pub proof fn law_one_trailing_newline_is_dropped(m: Seq<char>)
    ensures
        without_trailing_newline(m.push('\n')) == m,
        (m.len() == 0 || m.last() != '\n') ==> without_trailing_newline(m) == m,
{
    assert(m.push('\n').drop_last() =~= m);
}


/// The log line for a message printed by a module: `[name] label: message`,
/// at the level of the message's kind, without one trailing newline.
pub fn module_log_line(name: &str, kind: MessageType, message: &str) -> (res: (LogLevel, String))
    ensures
        res.0 == message_level(kind),
        res.1@ == "["@ + name@ + "] "@ + message_label(kind) + ": "@ + without_trailing_newline(
            message@,
        ),
{
    let (label, level): (&str, LogLevel) = match kind {
        MessageType::Info => ("info", LogLevel::Info),
        MessageType::Warn => ("warn", LogLevel::Warn),
        MessageType::Error => ("error", LogLevel::Error),
        MessageType::Stdout => ("stdout", LogLevel::Info),
        MessageType::Stderr => ("stderr", LogLevel::Info),
    };
    let n = message.unicode_len();
    let body: &str = if n > 0 && message.get_char(n - 1) == '\n' {
        message.substring_char(0, n - 1)
    } else {
        message
    };
    assert(body@ =~= without_trailing_newline(message@));
    let mut line = String::from_str("[");
    line.append(name);
    line.append("] ");
    line.append(label);
    line.append(": ");
    line.append(body);
    assert(line@ =~= "["@ + name@ + "] "@ + message_label(kind) + ": "@ + without_trailing_newline(
        message@,
    ));
    (level, line)
}

} // verus!
