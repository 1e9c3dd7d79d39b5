//! Unix path names as strings: the final component, its stem and
//! extension, joining, and `~` expansion. Component rules follow
//! `std::path`: repeated `/` and `.` components are ignored, and a path
//! ending in `..` has no file name.

use vstd::prelude::*;
use crate::text::{chars_of, string_of, string_range, spec_trim};

verus! {

/// A component worth keeping: not empty and not `.`.
pub open spec fn keep(cur: Seq<char>) -> Seq<Seq<char>> {
    if cur.len() == 0 || cur == "."@ { Seq::empty() } else { seq![cur] }
}

/// The components of `s` after the partial component `cur`.
pub open spec fn segs_acc(s: Seq<char>, cur: Seq<char>) -> Seq<Seq<char>>
    decreases s.len(),
{
    if s.len() == 0 {
        keep(cur)
    } else if s[0] == '/' {
        keep(cur) + segs_acc(s.drop_first(), Seq::empty())
    } else {
        segs_acc(s.drop_first(), cur.push(s[0]))
    }
}

/// The components of a path other than the root, `.` and empty ones.
pub open spec fn segments(p: Seq<char>) -> Seq<Seq<char>> {
    segs_acc(p, Seq::empty())
}

/// The final component, unless the path has none or ends in `..`.
pub open spec fn spec_file_name(p: Seq<char>) -> Option<Seq<char>> {
    let sg = segments(p);
    if sg.len() == 0 || sg.last() == ".."@ { None } else { Some(sg.last()) }
}

/// The position of the last `.` in a name.
pub open spec fn last_dot(name: Seq<char>) -> Option<int> {
    if exists|i: int| 0 <= i < name.len() && name[i] == '.' {
        Some(choose|i: int| 0 <= i < name.len() && name[i] == '.'
            && forall|j: int| i < j < name.len() ==> name[j] != '.')
    } else {
        None
    }
}

/// The file name without its extension (a leading `.` does not start one).
pub open spec fn spec_file_stem(p: Seq<char>) -> Option<Seq<char>> {
    match spec_file_name(p) {
        Some(n) => match last_dot(n) {
            Some(k) => if k == 0 { Some(n) } else { Some(n.take(k)) },
            None => Some(n),
        },
        None => None,
    }
}

/// The text after the file name's last `.` (a leading `.` does not start
/// one).
pub open spec fn spec_extension(p: Seq<char>) -> Option<Seq<char>> {
    match spec_file_name(p) {
        Some(n) => match last_dot(n) {
            Some(k) => if k == 0 { None } else { Some(n.skip(k + 1)) },
            None => None,
        },
        None => None,
    }
}

proof fn lemma_keep_push(cur: Seq<char>, out: Seq<Seq<char>>)
    ensures
        out + keep(cur) == (if cur.len() == 0 || cur == "."@ { out } else { out.push(cur) }),
{
    if cur.len() == 0 || cur == "."@ {
        assert(out + keep(cur) =~= out);
    } else {
        assert(out + keep(cur) =~= out.push(cur));
    }
}

/// Whether `v` is the one character `.`.
fn is_dot(v: &Vec<char>) -> (r: bool)
    ensures
        r == (v@ == "."@),
{
    proof {
        reveal_strlit(".");
    }
    let r = v.len() == 1 && v[0] == '.';
    proof {
        if r {
            assert(v@ =~= "."@);
        }
    }
    r
}

/// The components of a path (see `segments`).
pub fn path_segments(p: &str) -> (r: Vec<Vec<char>>)
    ensures
        r@.map_values(|v: Vec<char>| v@) == segments(p@),
{
    let cs = chars_of(p);
    let mut out: Vec<Vec<char>> = Vec::new();
    let mut cur: Vec<char> = Vec::new();
    let mut i: usize = 0;
    proof {
        assert(cs@.skip(0) =~= cs@);
        assert(out@.map_values(|v: Vec<char>| v@) =~= Seq::<Seq<char>>::empty());
    }
    while i < cs.len()
        invariant
            i <= cs@.len(),
            cs@ == p@,
            out@.map_values(|v: Vec<char>| v@) + segs_acc(cs@.skip(i as int), cur@) == segments(p@),
        decreases cs@.len() - i,
    {
        let c = cs[i];
        let ghost rest = cs@.skip(i as int);
        let ghost old_out = out@.map_values(|v: Vec<char>| v@);
        proof {
            assert(rest[0] == c);
            assert(rest.drop_first() =~= cs@.skip(i as int + 1));
        }
        if c == '/' {
            let ghost oc = cur@;
            if cur.len() > 0 && !is_dot(&cur) {
                out.push(cur);
                proof {
                    assert(out@.map_values(|v: Vec<char>| v@) =~= old_out.push(oc));
                }
            }
            proof {
                lemma_keep_push(oc, old_out);
                assert(out@.map_values(|v: Vec<char>| v@) == old_out + keep(oc));
                assert(old_out + (keep(oc) + segs_acc(cs@.skip(i as int + 1), Seq::empty()))
                    =~= (old_out + keep(oc)) + segs_acc(cs@.skip(i as int + 1), Seq::empty()));
            }
            cur = Vec::new();
            proof {
                assert(cur@ =~= Seq::<char>::empty());
            }
        } else {
            cur.push(c);
        }
        i = i + 1;
    }
    let ghost oc = cur@;
    let ghost old_out = out@.map_values(|v: Vec<char>| v@);
    proof {
        assert(cs@.skip(cs@.len() as int) =~= Seq::<char>::empty());
    }
    if cur.len() > 0 && !is_dot(&cur) {
        out.push(cur);
        proof {
            assert(out@.map_values(|v: Vec<char>| v@) =~= old_out.push(oc));
        }
    }
    proof {
        lemma_keep_push(oc, old_out);
    }
    out
}

/// Whether `v` is `..`.
fn is_dot_dot(v: &Vec<char>) -> (r: bool)
    ensures
        r == (v@ == ".."@),
{
    proof {
        reveal_strlit("..");
    }
    let r = v.len() == 2 && v[0] == '.' && v[1] == '.';
    proof {
        if r {
            assert(v@ =~= ".."@);
        }
    }
    r
}

/// The final component of a path (see `spec_file_name`).
pub fn file_name(p: &str) -> (r: Option<String>)
    ensures
        match spec_file_name(p@) {
            Some(n) => r matches Some(s) && s@ == n,
            None => r is None,
        },
{
    let segs = path_segments(p);
    let n = segs.len();
    proof {
        assert(segs@.map_values(|v: Vec<char>| v@).len() == n);
    }
    if n == 0 {
        return None;
    }
    let last = &segs[n - 1];
    proof {
        assert(segs@.map_values(|v: Vec<char>| v@).last() == last@);
    }
    if is_dot_dot(last) {
        return None;
    }
    Some(string_of(last.as_slice()))
}

/// Position of the last `.` in `v`.
fn find_last_dot(v: &Vec<char>) -> (r: Option<usize>)
    ensures
        r is Some <==> last_dot(v@) is Some,
        r matches Some(k) ==> last_dot(v@) == Some(k as int) && k < v@.len(),
{
    let mut i: usize = v.len();
    while i > 0
        invariant
            i <= v@.len(),
            forall|j: int| i <= j < v@.len() ==> v@[j] != '.',
        decreases i,
    {
        if v[i - 1] == '.' {
            proof {
                let k = (i - 1) as int;
                let w = choose|x: int| 0 <= x < v@.len() && v@[x] == '.'
                    && forall|j: int| x < j < v@.len() ==> v@[j] != '.';
                assert(0 <= k < v@.len() && v@[k] == '.' && forall|j: int| k < j < v@.len() ==> v@[j] != '.');
                if w < k {
                    assert(v@[k] != '.');
                } else if w > k {
                    assert(v@[w] != '.');
                }
            }
            return Some(i - 1);
        }
        i = i - 1;
    }
    None
}

/// The file name without its extension (see `spec_file_stem`).
pub fn file_stem(p: &str) -> (r: Option<String>)
    ensures
        match spec_file_stem(p@) {
            Some(n) => r matches Some(s) && s@ == n,
            None => r is None,
        },
{
    let name = match file_name(p) {
        Some(n) => n,
        None => return None,
    };
    let cs = chars_of(name.as_str());
    match find_last_dot(&cs) {
        Some(k) => if k == 0 {
            Some(name)
        } else {
            proof {
                assert(cs@.subrange(0, k as int) =~= cs@.take(k as int));
            }
            Some(string_range(&cs, 0, k))
        },
        None => Some(name),
    }
}

/// The file name's extension (see `spec_extension`).
pub fn extension(p: &str) -> (r: Option<String>)
    ensures
        match spec_extension(p@) {
            Some(n) => r matches Some(s) && s@ == n,
            None => r is None,
        },
{
    let name = match file_name(p) {
        Some(n) => n,
        None => return None,
    };
    let cs = chars_of(name.as_str());
    match find_last_dot(&cs) {
        Some(k) => if k == 0 {
            None
        } else {
            let n = cs.len();
            assert(k < n);
            proof {
                assert(cs@.subrange(k + 1, cs@.len() as int) =~= cs@.skip(k + 1));
            }
            Some(string_range(&cs, k + 1, cs.len()))
        },
        None => None,
    }
}

/// `rel` appended to the path `base` as `PathBuf::join` does on Unix: an
/// absolute `rel` replaces `base`; otherwise a `/` separates them unless
/// `base` is empty or already ends in one.
pub open spec fn path_join(base: Seq<char>, rel: Seq<char>) -> Seq<char> {
    if rel.len() > 0 && rel[0] == '/' {
        rel
    } else if base.len() == 0 || base.last() == '/' {
        base + rel
    } else {
        base + seq!['/'] + rel
    }
}

/// The path joined (see `path_join`).
pub fn join_path(base: &str, rel: &str) -> (r: String)
    ensures
        r@ == path_join(base@, rel@),
{
    let rn = rel.unicode_len();
    if rn > 0 && rel.get_char(0) == '/' {
        return String::from_str(rel);
    }
    let bn = base.unicode_len();
    let mut out = String::from_str(base);
    if bn > 0 && base.get_char(bn - 1) != '/' {
        out.push('/');
    }
    out.append(rel);
    out
}

/// `s` without `ch` at either end, as `str::trim_matches` strips it.
pub open spec fn strip_char(s: Seq<char>, ch: char) -> Seq<char>
    decreases s.len(),
{
    if s.len() > 0 && s[0] == ch {
        strip_char(s.drop_first(), ch)
    } else if s.len() > 0 && s.last() == ch {
        strip_char(s.drop_last(), ch)
    } else {
        s
    }
}

/// `s` without `ch` at either end.
pub fn strip_char_exec(s: &str, ch: char) -> (r: String)
    ensures
        r@ == strip_char(s@, ch),
{
    let cs = chars_of(s);
    let mut a: usize = 0;
    let mut b: usize = cs.len();
    assert(cs@.subrange(0, cs@.len() as int) =~= cs@);
    while a < b && (cs[a] == ch || cs[b - 1] == ch)
        invariant
            a <= b <= cs@.len(),
            cs@ == s@,
            strip_char(s@, ch) == strip_char(cs@.subrange(a as int, b as int), ch),
        decreases b - a,
    {
        let ghost t = cs@.subrange(a as int, b as int);
        if cs[a] == ch {
            assert(t[0] == ch);
            assert(t.drop_first() =~= cs@.subrange(a as int + 1, b as int));
            a = a + 1;
        } else {
            assert(t[0] != ch);
            assert(t.last() == ch);
            assert(t.drop_last() =~= cs@.subrange(a as int, b as int - 1));
            b = b - 1;
        }
    }
    proof {
        let t = cs@.subrange(a as int, b as int);
        if a < b {
            assert(t[0] == cs@[a as int]);
            assert(t.last() == cs@[b - 1]);
        }
        assert(strip_char(t, ch) == t);
        assert(cs@.subrange(0, cs@.len() as int) =~= cs@);
    }
    string_range(&cs, a, b)
}

/// A path with a leading `~` or `~/` replaced by the home directory (when
/// known), after trimming whitespace and `;` from both ends.
pub open spec fn spec_expand_tilde(path: Seq<char>, home: Option<Seq<char>>) -> Seq<char> {
    let cleaned = strip_char(spec_trim(path), ';');
    let tilde = cleaned == "~"@ || (cleaned.len() >= 2 && cleaned[0] == '~' && cleaned[1] == '/');
    match home {
        Some(h) => if tilde {
            if cleaned == "~"@ { h } else { path_join(h, cleaned.skip(2)) }
        } else {
            cleaned
        },
        None => cleaned,
    }
}

/// Expand a leading `~` (see `spec_expand_tilde`); `home` is the home
/// directory if it is known.
pub fn expand_tilde(path: &str, home: Option<String>) -> (r: String)
    ensures
        r@ == spec_expand_tilde(path@, match home { Some(h) => Some(h@), None => None }),
{
    let t = crate::text::trim(path);
    let cleaned = strip_char_exec(t.as_str(), ';');
    let cs = chars_of(cleaned.as_str());
    proof {
        reveal_strlit("~");
    }
    let is_tilde = cs.len() == 1 && cs[0] == '~';
    proof {
        if is_tilde {
            assert(cs@ =~= "~"@);
        }
        if cs@ == "~"@ {
            assert(cs@.len() == 1 && cs@[0] == '~');
        }
    }
    let tilde = is_tilde || (cs.len() >= 2 && cs[0] == '~' && cs[1] == '/');
    match home {
        Some(h) => if tilde {
            if is_tilde {
                h
            } else {
                proof {
                    assert(cs@.subrange(2, cs@.len() as int) =~= cs@.skip(2));
                }
                let rest = string_range(&cs, 2, cs.len());
                join_path(h.as_str(), rest.as_str())
            }
        } else {
            cleaned
        },
        None => cleaned,
    }
}

pub open spec fn opt_chars(o: Option<String>) -> Option<Seq<char>> {
    match o {
        Some(s) => Some(s@),
        None => None,
    }
}

/// Both paths expanded, `child` taken alone when it is absolute, else
/// joined onto `base`.
pub open spec fn spec_join(base: Seq<char>, child: Seq<char>, home: Option<Seq<char>>) -> Seq<char> {
    path_join(spec_expand_tilde(base, home), spec_expand_tilde(child, home))
}

/// Join two paths after expanding `~` in each (see `spec_join`).
pub fn join(base: &str, child: &str, home: Option<String>) -> (r: String)
    ensures
        r@ == spec_join(base@, child@, opt_chars(home)),
{
    let h2 = match &home {
        Some(h) => Some(h.clone()),
        None => None,
    };
    let b = expand_tilde(base, home);
    let c = expand_tilde(child, h2);
    join_path(b.as_str(), c.as_str())
}

/// The path expanded and, when relative, taken from the current directory
/// (when known).
pub open spec fn spec_resolve(path: Seq<char>, home: Option<Seq<char>>, cwd: Option<Seq<char>>) -> Seq<char> {
    let p = spec_expand_tilde(path, home);
    if p.len() > 0 && p[0] == '/' {
        p
    } else {
        match cwd {
            Some(c) => path_join(c, p),
            None => p,
        }
    }
}

/// Resolve a path (see `spec_resolve`).
pub fn resolve(path: &str, home: Option<String>, cwd: Option<String>) -> (r: String)
    ensures
        r@ == spec_resolve(path@, opt_chars(home), opt_chars(cwd)),
{
    let p = expand_tilde(path, home);
    let n = p.as_str().unicode_len();
    if n > 0 && p.as_str().get_char(0) == '/' {
        return p;
    }
    match cwd {
        Some(c) => join_path(c.as_str(), p.as_str()),
        None => p,
    }
}

/// Where a plugin's named configuration lives: `name` (trimmed) inside
/// `~/.ink/configs`. Empty names, absolute paths and paths with a `..`
/// component are refused, as is everything when the home directory is
/// unknown.
pub open spec fn spec_config_file(name: Seq<char>, home: Option<Seq<char>>) -> Option<Seq<char>> {
    let n = spec_trim(name);
    if n.len() == 0 || n[0] == '/' || (exists|i: int| 0 <= i < segments(n).len() && segments(n)[i] == ".."@) {
        None
    } else {
        match home {
            Some(h) => Some(path_join(path_join(path_join(h, ".ink"@), "configs"@), n)),
            None => None,
        }
    }
}

/// The path of a plugin's named configuration (see `spec_config_file`).
pub fn config_file(name: &str, home: Option<String>) -> (r: Option<String>)
    ensures
        opt_chars(r) == spec_config_file(name@, opt_chars(home)),
{
    let n = crate::text::trim(name);
    let len = n.as_str().unicode_len();
    if len == 0 || n.as_str().get_char(0) == '/' {
        return None;
    }
    let segs = path_segments(n.as_str());
    let ghost sv = segs@.map_values(|v: Vec<char>| v@);
    let mut i: usize = 0;
    while i < segs.len()
        invariant
            i <= segs@.len(),
            sv == segs@.map_values(|v: Vec<char>| v@),
            sv == segments(n@),
            n@ == spec_trim(name@),
            forall|j: int| 0 <= j < i ==> sv[j] != ".."@,
        decreases segs@.len() - i,
    {
        if is_dot_dot(&segs[i]) {
            assert(sv[i as int] == segs@[i as int]@);
            assert(0 <= i < segments(n@).len() && segments(n@)[i as int] == ".."@);
            return None;
        }
        i = i + 1;
    }
    match home {
        Some(h) => {
            let a = join_path(h.as_str(), ".ink");
            let b = join_path(a.as_str(), "configs");
            Some(join_path(b.as_str(), n.as_str()))
        },
        None => None,
    }
}

} // verus!
