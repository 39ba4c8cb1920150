use vstd::prelude::*;
use crate::text::{decimal, decimal_string, has_prefix, join2, owned, string_views};

verus! {

// ---------------------------------------------------------------------------
// Locating the external downloader
// ---------------------------------------------------------------------------

/// The names under which the external downloader is looked for in a folder.
pub open spec fn jar_names() -> Seq<Seq<char>> {
    seq!["kotatsu-dl.jar"@, "kotatsu-dl-0.8/kotatsu-dl.jar"@]
}

/// The fixed places tried last on Windows.
pub open spec fn windows_jars() -> Seq<Seq<char>> {
    seq![
        "C:\\Users\\combo\\Documents\\projetos\\FireScan\\kotatsu-dl.jar"@,
        "C:\\Users\\combo\\Documents\\projetos\\FireScan\\kotatsu-dl-0.8\\kotatsu-dl.jar"@,
        "C:\\Users\\combo\\Documents\\projetos\\FireScan\\kotatsu-dl-0.8\\build\\libs\\kotatsu-dl.jar"@,
    ]
}

/// A relative name that no platform reads with a root or a drive: it has no `:` and does
/// not start with `/` or `\`.
pub open spec fn relative_name(n: Seq<char>) -> bool {
    &&& forall|i: int| 0 <= i < n.len() ==> #[trigger] n[i] != ':'
    &&& (n.len() == 0 || (n[0] != '/' && n[0] != '\\'))
}

/// A folder that is not a Windows verbatim path: it does not start with `\`.
pub open spec fn non_verbatim(b: Seq<char>) -> bool {
    b.len() == 0 || b[0] != '\\'
}

/// A path joined under a folder: it begins with the folder and ends with the name.
pub open spec fn joined_under(p: Seq<char>, dir: Seq<char>, name: Seq<char>) -> bool {
    has_prefix(p, dir) && crate::text::has_suffix(p, name)
}

/// Calls `std::path::Path::join` and `Path::to_string_lossy`. Claimed: joining a relative
/// name to a folder that is not a verbatim path keeps the folder's text, adds a separator
/// where one is needed, and ends with the name; to the empty folder it gives the name. Which
/// separator is added depends on the platform and is not claimed.
#[verifier::external_body]
fn join_path_text(base: &str, name: &str) -> (r: String)
    ensures
        relative_name(name@) && non_verbatim(base@) ==> joined_under(r@, base@, name@),
        relative_name(name@) && base@.len() == 0 ==> r@ == name@,
{
    std::path::Path::new(base).join(name).to_string_lossy().to_string()
}

/// The position of the last `c` in `p`, if any.
pub open spec fn last_index(p: Seq<char>, c: char) -> Option<int>
    decreases p.len(),
{
    if p.len() == 0 {
        None
    } else if p.last() == c {
        Some(p.len() - 1)
    } else {
        last_index(p.drop_last(), c)
    }
}

/// `last_index` finds the last occurrence.
pub proof fn lemma_last_index(p: Seq<char>, c: char)
    ensures
        match last_index(p, c) {
            Some(k) => 0 <= k < p.len() && p[k] == c && forall|j: int| k < j < p.len() ==> p[j] != c,
            None => forall|j: int| 0 <= j < p.len() ==> p[j] != c,
        },
    decreases p.len(),
{
    if p.len() > 0 && p.last() != c {
        lemma_last_index(p.drop_last(), c);
        assert forall|j: int| 0 <= j < p.len() - 1 implies p.drop_last()[j] == p[j] by {}
    }
}

/// A path written with `/` that every platform splits alike: it holds no `\` or `:`, no
/// two `/` in a row, does not end with `/` (unless it is the root `/`), and has no part
/// that is `.` or `..`.
pub open spec fn slash_path(p: Seq<char>) -> bool {
    &&& forall|i: int| 0 <= i < p.len() ==> #[trigger] p[i] != '\\' && p[i] != ':'
    &&& forall|i: int| 0 <= i < p.len() - 1 && #[trigger] p[i] == '/' ==> p[i + 1] != '/'
    &&& (p.len() > 1 ==> p.last() != '/')
    &&& forall|i: int|
        0 <= i < p.len() && #[trigger] p[i] == '.' && (i == 0 || p[i - 1] == '/') ==> {
            &&& i + 1 < p.len()
            &&& p[i + 1] != '/'
            &&& !(p[i + 1] == '.' && (i + 2 == p.len() || (i + 2 < p.len() && p[i + 2] == '/')))
        }
}

/// The parent of a path written with `/`, as `Path::parent` gives it: none for the empty
/// path and the root; the empty path for a single name; the root for a name under the root;
/// else the text before the last `/`.
pub open spec fn parent_spec(p: Seq<char>) -> Option<Seq<char>> {
    if p.len() == 0 || p == seq!['/'] {
        None
    } else {
        match last_index(p, '/') {
            None => Some(Seq::empty()),
            Some(k) => if k == 0 {
                Some(seq!['/'])
            } else {
                Some(p.take(k))
            },
        }
    }
}

/// The parent of a path written with `/` is written with `/` too.
pub proof fn lemma_parent_slash(p: Seq<char>)
    requires
        slash_path(p),
    ensures
        parent_spec(p) matches Some(q) ==> slash_path(q),
{
    lemma_last_index(p, '/');
    if let Some(q) = parent_spec(p) {
        if let Some(k) = last_index(p, '/') {
            if k > 0 {
                assert(q.len() == k);
                assert forall|i: int| 0 <= i < q.len() implies #[trigger] q[i] != '\\' && q[i] != ':' by {
                    assert(q[i] == p[i]);
                }
                assert forall|i: int| 0 <= i < q.len() - 1 && #[trigger] q[i] == '/' implies q[i + 1] != '/' by {
                    assert(q[i] == p[i] && q[i + 1] == p[i + 1]);
                }
                assert(q.last() == p[k - 1]);
                assert(p[k - 1] == '/' ==> p[k] != '/');
                assert forall|i: int|
                    0 <= i < q.len() && #[trigger] q[i] == '.' && (i == 0 || q[i - 1] == '/') implies {
                        &&& i + 1 < q.len()
                        &&& q[i + 1] != '/'
                        &&& !(q[i + 1] == '.' && (i + 2 == q.len() || (i + 2 < q.len() && q[i + 2] == '/')))
                    } by {
                    assert(q[i] == p[i]);
                    assert(p[i] == '.');
                    if i > 0 {
                        assert(q[i - 1] == p[i - 1]);
                    }
                    if i + 1 < k {
                        assert(q[i + 1] == p[i + 1]);
                    }
                    if i + 2 < k {
                        assert(q[i + 2] == p[i + 2]);
                    }
                }
            }
        }
    }
}

/// A folder and its parents, nearest first, at most `n` of them, as `Path::parent` gives
/// them for paths written with `/`.
pub open spec fn folder_chain(p: Seq<char>, n: nat) -> Seq<Seq<char>>
    decreases n,
{
    if n == 0 {
        Seq::empty()
    } else {
        seq![p] + match parent_spec(p) {
            Some(q) => folder_chain(q, (n - 1) as nat),
            None => Seq::empty(),
        }
    }
}

/// Calls `std::path::Path::parent` and `Path::to_string_lossy`. Claimed: for a path written
/// with `/` (see `slash_path`), the parent is `parent_spec` of it, which std's documentation
/// of `Path::parent` gives alike on every platform. Of other paths nothing is claimed: how
/// they split depends on the platform.
#[verifier::external_body]
fn parent_path_text(p: &str) -> (r: Option<String>)
    ensures
        slash_path(p@) ==> crate::registry::opt_view(r) == parent_spec(p@),
{
    std::path::Path::new(p).parent().map(|d| d.to_string_lossy().to_string())
}

/// A folder and its parents, at most `levels` of them, nearest first.
pub fn ancestors(dir: &str, levels: usize) -> (r: Vec<String>)
    ensures
        r@.len() <= levels,
        levels > 0 ==> r@.len() > 0 && r@[0]@ == dir@,
        slash_path(dir@) ==> string_views(r@) == folder_chain(dir@, levels as nat),
{
    let mut out: Vec<String> = Vec::new();
    if levels == 0 {
        return out;
    }
    let mut cur = owned(dir);
    let mut k: usize = 0;
    let mut done = false;
    proof {
        assert(string_views(out@) =~= Seq::<Seq<char>>::empty());
        assert(string_views(out@) + folder_chain(cur@, levels as nat) =~= folder_chain(cur@, levels as nat));
    }
    while k < levels && !done
        invariant
            0 < levels,
            k <= levels,
            out@.len() == k,
            k == 0 ==> cur@ == dir@ && !done,
            k > 0 ==> out@[0]@ == dir@,
            !done ==> (slash_path(dir@) ==> slash_path(cur@) && string_views(out@) + folder_chain(
                cur@,
                (levels - k) as nat,
            ) == folder_chain(dir@, levels as nat)),
            done ==> (slash_path(dir@) ==> string_views(out@) == folder_chain(dir@, levels as nat)),
        decreases levels - k,
    {
        let next = parent_path_text(cur.as_str());
        let ghost before = string_views(out@);
        let ghost c = cur@;
        let ghost m = (levels - k) as nat;
        proof {
            if slash_path(c) {
                lemma_parent_slash(c);
            }
        }
        out.push(cur);
        k = k + 1;
        proof {
            assert(string_views(out@) =~= before.push(c));
        }
        match next {
            Some(p) => {
                cur = p;
                proof {
                    if slash_path(dir@) {
                        assert(folder_chain(c, m) == seq![c] + folder_chain(cur@, (m - 1) as nat));
                        assert(before + folder_chain(c, m) =~= before.push(c) + folder_chain(
                            cur@,
                            (m - 1) as nat,
                        ));
                    }
                }
            },
            None => {
                done = true;
                cur = String::new();
                proof {
                    if slash_path(dir@) {
                        assert(folder_chain(c, m) =~= seq![c]);
                        assert(before + folder_chain(c, m) =~= before.push(c));
                    }
                }
            },
        }
    }
    proof {
        if !done && slash_path(dir@) {
            assert(string_views(out@) + folder_chain(cur@, 0) =~= string_views(out@));
        }
    }
    out
}

/// Entry `a * |names| + b` of a block that starts at `start` joins `names[b]` under
/// `dirs[a]`, wherever the join keeps both (a relative name, a folder that is not verbatim).
pub open spec fn joined_at(out: Seq<String>, start: int, dirs: Seq<String>, names: Seq<String>, a: int, b: int) -> bool {
    relative_name(names[b]@) && non_verbatim(dirs[a]@) ==> joined_under(
        out[start + a * names.len() + b]@,
        dirs[a]@,
        names[b]@,
    )
}

/// Appends each folder joined with each name, folder by folder.
fn push_joined(out: &mut Vec<String>, dirs: &Vec<String>, names: &Vec<String>)
    ensures
        final(out)@.len() == old(out)@.len() + dirs@.len() * names@.len(),
        final(out)@.subrange(0, old(out)@.len() as int) == old(out)@,
        forall|a: int, b: int|
            0 <= a < dirs@.len() && 0 <= b < names@.len() ==> #[trigger] joined_at(
                final(out)@,
                old(out)@.len() as int,
                dirs@,
                names@,
                a,
                b,
            ),
        dirs@.len() > 0 ==> forall|j: int|
            0 <= j < names@.len() ==> (relative_name(names@[j]@) && non_verbatim(dirs@[0]@) ==> joined_under(
                #[trigger] final(out)@[old(out)@.len() + j]@,
                dirs@[0]@,
                names@[j]@,
            )),
{
    let ghost start = out@;
    let ghost n = names@.len() as int;
    let mut i: usize = 0;
    while i < dirs.len()
        invariant
            i <= dirs@.len(),
            n == names@.len(),
            out@.len() == start.len() + i * n,
            out@.subrange(0, start.len() as int) == start,
            forall|a: int, b: int|
                0 <= a < i && 0 <= b < n ==> #[trigger] joined_at(out@, start.len() as int, dirs@, names@, a, b),
        decreases dirs@.len() - i,
    {
        let mut j: usize = 0;
        while j < names.len()
            invariant
                j <= names@.len(),
                i < dirs@.len(),
                n == names@.len(),
                out@.len() == start.len() + i * n + j,
                out@.subrange(0, start.len() as int) == start,
                forall|a: int, b: int|
                    ((0 <= a < i && 0 <= b < n) || (a == i && 0 <= b < j)) ==> #[trigger] joined_at(
                        out@,
                        start.len() as int,
                        dirs@,
                        names@,
                        a,
                        b,
                    ),
            decreases names@.len() - j,
        {
            let p = join_path_text(dirs[i].as_str(), names[j].as_str());
            let ghost before = out@;
            out.push(p);
            proof {
                assert(out@.subrange(0, start.len() as int) =~= before.subrange(0, start.len() as int));
                assert forall|a: int, b: int|
                    ((0 <= a < i && 0 <= b < n) || (a == i && 0 <= b < j + 1)) implies #[trigger] joined_at(
                        out@,
                        start.len() as int,
                        dirs@,
                        names@,
                        a,
                        b,
                    ) by {
                    if a == i && b == j {
                        assert(out@[start.len() + a * n + b] == p);
                    } else {
                        assert(joined_at(before, start.len() as int, dirs@, names@, a, b));
                        if a < i {
                            assert(a * n + b < i * n) by (nonlinear_arith)
                                requires
                                    0 <= a < i,
                                    0 <= b < n,
                            ;
                        }
                        assert(out@[start.len() + a * n + b] == before[start.len() + a * n + b]);
                    }
                }
            }
            j = j + 1;
        }
        proof {
            assert(start.len() + i * n + n == start.len() + (i + 1) * n) by (nonlinear_arith);
        }
        i = i + 1;
    }
    proof {
        if dirs@.len() > 0 {
            assert forall|j: int| 0 <= j < n implies (relative_name(names@[j]@) && non_verbatim(dirs@[0]@)
                ==> joined_under(#[trigger] out@[start.len() + j]@, dirs@[0]@, names@[j]@)) by {
                assert(joined_at(out@, start.len() as int, dirs@, names@, 0, j));
                assert(0 * n + j == j);
            }
        }
    }
}

/// The names joined under folders when the external downloader is looked for are relative.
proof fn lemma_relative_names()
    ensures
        relative_name("kotatsu-dl.jar"@),
        relative_name("kotatsu-dl-0.8/kotatsu-dl.jar"@),
        relative_name("tools"@),
        relative_name("bin"@),
        "tools"@.len() > 0,
        "bin"@.len() > 0,
{
    assert(relative_name("kotatsu-dl.jar"@)) by {
        reveal_strlit("kotatsu-dl.jar");
    }
    assert(relative_name("kotatsu-dl-0.8/kotatsu-dl.jar"@)) by {
        reveal_strlit("kotatsu-dl-0.8/kotatsu-dl.jar");
    }
    assert(relative_name("tools"@) && "tools"@.len() > 0) by {
        reveal_strlit("tools");
    }
    assert(relative_name("bin"@) && "bin"@.len() > 0) by {
        reveal_strlit("bin");
    }
}

/// A name joined under a subfolder joined under `d` is joined under `d`.
proof fn lemma_joined_twice(p: Seq<char>, sub: Seq<char>, d: Seq<char>, sub_name: Seq<char>, name: Seq<char>)
    requires
        non_verbatim(d),
        relative_name(sub_name),
        sub_name.len() > 0,
        joined_under(sub, d, sub_name),
        d.len() == 0 ==> sub == sub_name,
        non_verbatim(sub) ==> joined_under(p, sub, name),
    ensures
        joined_under(p, d, name),
{
    if d.len() > 0 {
        assert(sub[0] == sub.subrange(0, d.len() as int)[0]);
    }
    assert(non_verbatim(sub));
    assert(p.subrange(0, d.len() as int) =~= p.subrange(0, sub.len() as int).subrange(0, d.len() as int));
    assert(sub.subrange(0, d.len() as int) =~= d);
}

/// Every folder in the chain of a path written with `/` is written with `/`.
pub proof fn lemma_chain_slash(p: Seq<char>, n: nat)
    requires
        slash_path(p),
    ensures
        forall|i: int| 0 <= i < folder_chain(p, n).len() ==> slash_path(#[trigger] folder_chain(p, n)[i]),
    decreases n,
{
    if n > 0 {
        lemma_parent_slash(p);
        match parent_spec(p) {
            Some(q) => {
                lemma_chain_slash(q, (n - 1) as nat);
                assert forall|i: int| 0 <= i < folder_chain(p, n).len() implies slash_path(
                    #[trigger] folder_chain(p, n)[i],
                ) by {
                    if i > 0 {
                        assert(folder_chain(p, n)[i] == folder_chain(q, (n - 1) as nat)[i - 1]);
                    }
                }
            },
            None => {},
        }
    }
}

/// The working folder and its parents that are searched: five folders at most.
pub open spec fn cwd_chain(cwd: Option<String>) -> Seq<Seq<char>> {
    match cwd {
        Some(d) => folder_chain(d@, 5),
        None => Seq::empty(),
    }
}

/// The program's folder and its parents that are searched: five folders at most.
pub open spec fn exe_chain(exe: Option<String>) -> Seq<Seq<char>> {
    match exe {
        Some(x) => match parent_spec(x@) {
            Some(p) => folder_chain(p, 5),
            None => Seq::empty(),
        },
        None => Seq::empty(),
    }
}

/// The working folder and the program's path, where given, are written with `/`, so that
/// their chains of folders are the same on every platform.
pub open spec fn slash_inputs(cwd: Option<String>, exe: Option<String>) -> bool {
    &&& (cwd matches Some(d) ==> slash_path(d@))
    &&& (exe matches Some(x) ==> slash_path(x@))
}

/// From `start` on, each folder of `chain` joined with each jar name, folder by folder.
pub open spec fn jar_block(r: Seq<String>, start: int, chain: Seq<Seq<char>>) -> bool {
    forall|i: int, j: int|
        0 <= i < chain.len() && 0 <= j < 2 ==> joined_under(#[trigger] r[start + 2 * i + j]@, chain[i], jar_names()[j])
}

/// The places where the external downloader is looked for, in order: the override, the
/// working folder and its parents, the executable's folder and its parents (five levels
/// each, both names), the bare names, the application data folder (directly, in `tools`,
/// in `bin`) and, on Windows, fixed development folders. The first that exists is used.
/// Appends a folder and its parents (five at most), each joined with both jar names.
fn push_chain_jars(out: &mut Vec<String>, dir: &str, names: &Vec<String>)
    requires
        string_views(names@) == jar_names(),
    ensures
        final(out)@.len() >= old(out)@.len() + 2,
        forall|i: int| 0 <= i < old(out)@.len() ==> #[trigger] final(out)@[i] == old(out)@[i],
        non_verbatim(dir@) ==> joined_under(final(out)@[old(out)@.len() as int]@, dir@, jar_names()[0])
            && joined_under(final(out)@[old(out)@.len() + 1int]@, dir@, jar_names()[1]),
        slash_path(dir@) ==> final(out)@.len() == old(out)@.len() + 2 * folder_chain(dir@, 5).len() && jar_block(
            final(out)@,
            old(out)@.len() as int,
            folder_chain(dir@, 5),
        ),
{
    proof {
        lemma_relative_names();
        assert(string_views(names@).len() == names@.len());
        assert(names@.len() == 2);
        assert(names@[0]@ == string_views(names@)[0] && names@[1]@ == string_views(names@)[1]);
        assert(names@[0]@ == jar_names()[0] && names@[1]@ == jar_names()[1]);
    }
    let ghost start = out@;
    let ghost k = out@.len() as int;
    let dirs = ancestors(dir, 5);
    push_joined(out, &dirs, names);
    proof {
        assert forall|i: int| 0 <= i < start.len() implies #[trigger] out@[i] == start[i] by {
            assert(out@[i] == out@.subrange(0, k)[i]);
        }
        if non_verbatim(dir@) {
            assert(joined_under(out@[k + 0]@, dirs@[0]@, names@[0]@));
            assert(joined_under(out@[k + 1]@, dirs@[0]@, names@[1]@));
        }
        if slash_path(dir@) {
            lemma_chain_slash(dir@, 5);
            assert(string_views(dirs@) == folder_chain(dir@, 5));
            assert forall|i: int, j: int| 0 <= i < folder_chain(dir@, 5).len() && 0 <= j < 2 implies joined_under(
                #[trigger] out@[k + 2 * i + j]@,
                folder_chain(dir@, 5)[i],
                jar_names()[j],
            ) by {
                assert(joined_at(out@, k, dirs@, names@, i, j));
                assert(dirs@[i]@ == folder_chain(dir@, 5)[i]);
                assert(slash_path(folder_chain(dir@, 5)[i]));
                assert(names@[j]@ == jar_names()[j]);
            }
        }
    }
}

pub fn kotatsu_jar_candidates(
    env_override: Option<String>,
    cwd: Option<String>,
    exe: Option<String>,
    data_dir: Option<String>,
    windows: bool,
) -> (r: Vec<String>)
    ensures
        env_override matches Some(e) ==> r@.len() > 0 && r@[0]@ == e@,
        windows ==> r@.len() >= 3 && string_views(r@.subrange(r@.len() - 3, r@.len() as int)) == windows_jars(),
        ({
            let tail = (if windows { 3int } else { 0 }) + (if data_dir is Some { 3int } else { 0 });
            r@.len() >= tail + 2 && string_views(r@.subrange(r@.len() - tail - 2, r@.len() - tail)) == jar_names()
        }),
        cwd matches Some(d) ==> non_verbatim(d@) ==> ({
            let k = if env_override is Some { 1int } else { 0int };
            &&& r@.len() >= k + 2
            &&& joined_under(r@[k]@, d@, jar_names()[0])
            &&& joined_under(r@[k + 1]@, d@, jar_names()[1])
        }),
        data_dir matches Some(d) ==> non_verbatim(d@) ==> ({
            let k = r@.len() - (if windows { 3int } else { 0 }) - 3;
            &&& k >= 0
            &&& joined_under(r@[k]@, d@, jar_names()[0])
            &&& joined_under(r@[k + 1]@, d@, jar_names()[0])
            &&& joined_under(r@[k + 2]@, d@, jar_names()[0])
        }),
        slash_inputs(cwd, exe) ==> ({
            let k0 = if env_override is Some { 1int } else { 0int };
            let k1 = k0 + 2 * cwd_chain(cwd).len();
            let tail = (if windows { 3int } else { 0 }) + (if data_dir is Some { 3int } else { 0 });
            &&& r@.len() == k1 + 2 * exe_chain(exe).len() + 2 + tail
            &&& jar_block(r@, k0, cwd_chain(cwd))
            &&& jar_block(r@, k1, exe_chain(exe))
        }),
{
    let names = vec![owned("kotatsu-dl.jar"), owned("kotatsu-dl-0.8/kotatsu-dl.jar")];
    proof {
        lemma_relative_names();
        assert(string_views(names@) =~= jar_names());
    }
    let mut out: Vec<String> = Vec::new();
    match env_override {
        Some(e) => {
            out.push(e);
        },
        None => {},
    }
    let ghost first = out@;
    let ghost k = first.len() as int;
    match &cwd {
        Some(d) => {
            push_chain_jars(&mut out, d.as_str(), &names);
        },
        None => {},
    }
    let ghost after_cwd = out@;
    let ghost k1 = after_cwd.len() as int;
    match &exe {
        Some(x) => match parent_path_text(x.as_str()) {
            Some(d) => {
                proof {
                    if slash_path(x@) {
                        lemma_parent_slash(x@);
                    }
                }
                push_chain_jars(&mut out, d.as_str(), &names);
            },
            None => {},
        },
        None => {},
    }
    let ghost after_exe = out@;
    proof {
        assert forall|i: int| 0 <= i < k1 implies #[trigger] after_exe[i] == after_cwd[i] by {}
        if slash_inputs(cwd, exe) {
            assert(k1 == k + 2 * cwd_chain(cwd).len());
            assert(after_exe.len() == k1 + 2 * exe_chain(exe).len());
            assert forall|i: int, j: int| 0 <= i < cwd_chain(cwd).len() && 0 <= j < 2 implies joined_under(
                #[trigger] after_exe[k + 2 * i + j]@,
                cwd_chain(cwd)[i],
                jar_names()[j],
            ) by {
                assert(joined_under(after_cwd[k + 2 * i + j]@, cwd_chain(cwd)[i], jar_names()[j]));
                assert(after_exe[k + 2 * i + j] == after_cwd[k + 2 * i + j]);
            }
        }
    }
    out.push(owned("kotatsu-dl.jar"));
    out.push(owned("kotatsu-dl-0.8/kotatsu-dl.jar"));
    let ghost names_at = out@.len();
    match data_dir {
        Some(d) => {
            out.push(join_path_text(d.as_str(), "kotatsu-dl.jar"));
            let tools = join_path_text(d.as_str(), "tools");
            let in_tools = join_path_text(tools.as_str(), "kotatsu-dl.jar");
            let bin = join_path_text(d.as_str(), "bin");
            let in_bin = join_path_text(bin.as_str(), "kotatsu-dl.jar");
            proof {
                if non_verbatim(d@) {
                    lemma_joined_twice(in_tools@, tools@, d@, "tools"@, "kotatsu-dl.jar"@);
                    lemma_joined_twice(in_bin@, bin@, d@, "bin"@, "kotatsu-dl.jar"@);
                }
            }
            out.push(in_tools);
            out.push(in_bin);
        },
        None => {},
    }
    if windows {
        out.push(owned("C:\\Users\\combo\\Documents\\projetos\\FireScan\\kotatsu-dl.jar"));
        out.push(owned("C:\\Users\\combo\\Documents\\projetos\\FireScan\\kotatsu-dl-0.8\\kotatsu-dl.jar"));
        out.push(owned("C:\\Users\\combo\\Documents\\projetos\\FireScan\\kotatsu-dl-0.8\\build\\libs\\kotatsu-dl.jar"));
    }
    proof {
        let n = out@.len();
        let tail = (if windows { 3int } else { 0 }) + (if data_dir is Some { 3int } else { 0 });
        assert(n == names_at + tail);
        assert(string_views(out@.subrange(n - tail - 2, n - tail)) =~= jar_names());
        if windows {
            assert(string_views(out@.subrange(n - 3, n as int)) =~= windows_jars());
        }
        assert forall|i: int| 0 <= i < after_exe.len() implies #[trigger] out@[i] == after_exe[i] by {}
        if first.len() > 0 {
            assert(out@[0] == after_exe[0]);
            assert(after_exe[0] == after_cwd[0]);
        }
        if slash_inputs(cwd, exe) {
            assert forall|i: int, j: int| 0 <= i < cwd_chain(cwd).len() && 0 <= j < 2 implies joined_under(
                #[trigger] out@[k + 2 * i + j]@,
                cwd_chain(cwd)[i],
                jar_names()[j],
            ) by {
                assert(joined_under(after_exe[k + 2 * i + j]@, cwd_chain(cwd)[i], jar_names()[j]));
                assert(out@[k + 2 * i + j] == after_exe[k + 2 * i + j]);
            }
            assert forall|i: int, j: int| 0 <= i < exe_chain(exe).len() && 0 <= j < 2 implies joined_under(
                #[trigger] out@[k1 + 2 * i + j]@,
                exe_chain(exe)[i],
                jar_names()[j],
            ) by {
                assert(joined_under(after_exe[k1 + 2 * i + j]@, exe_chain(exe)[i], jar_names()[j]));
                assert(out@[k1 + 2 * i + j] == after_exe[k1 + 2 * i + j]);
            }
        }
        if cwd matches Some(d) && non_verbatim(d@) {
            assert(out@[k] == after_cwd[k] && out@[k + 1] == after_cwd[k + 1]);
        }
    }
    out
}

/// The message when the external downloader cannot be found.
pub fn jar_missing_message() -> (r: String)
    ensures
        r@ == "kotatsu-dl.jar not found. Set KOTATSU_DL_JAR or place it in repo root, kotatsu-dl-0.8/, or app data tools folder."@,
{
    owned("kotatsu-dl.jar not found. Set KOTATSU_DL_JAR or place it in repo root, kotatsu-dl-0.8/, or app data tools folder.")
}

// ---------------------------------------------------------------------------
// Fetching a page, with a mirror when it is forbidden
// ---------------------------------------------------------------------------

/// What to do with the answer to a direct page request.
pub enum FetchStep {
    /// Use the page fetched.
    UsePage,
    /// Ask the mirror for it.
    TryMirror,
    /// Give up.
    Fail,
}

/// What to do with the answer to a direct page request: use a successful page, ask the
/// mirror when the request failed or was forbidden (403), give up otherwise.
pub fn direct_fetch_step(reached: bool, success: bool, status: u16) -> (r: FetchStep)
    ensures
        !reached ==> r == FetchStep::TryMirror,
        reached && success ==> r == FetchStep::UsePage,
        reached && !success && status == 403 ==> r == FetchStep::TryMirror,
        reached && !success && status != 403 ==> r == FetchStep::Fail,
{
    if !reached {
        FetchStep::TryMirror
    } else if success {
        FetchStep::UsePage
    } else if status == 403 {
        FetchStep::TryMirror
    } else {
        FetchStep::Fail
    }
}

// ---------------------------------------------------------------------------
// Progress messages of the built-in downloaders
// ---------------------------------------------------------------------------

/// The progress line of the Niadd downloader after attempting a page file.
pub fn attempted_message(file_name: &str) -> (r: String)
    ensures
        r@ == "Attempted "@ + file_name@,
{
    join2("Attempted ", file_name)
}

/// The progress line of the MangaLivre downloader after page `page` of a chapter.
pub fn chapter_page_message(chapter: &str, page: u64) -> (r: String)
    ensures
        r@ == "Chapter "@ + chapter@ + " page "@ + decimal(page as nat),
{
    let a = join2("Chapter ", chapter);
    let b = join2(a.as_str(), " page ");
    let r = join2(b.as_str(), decimal_string(page).as_str());
    proof {
        assert(r@ =~= "Chapter "@ + chapter@ + " page "@ + decimal(page as nat));
    }
    r
}

/// The progress line of the MangaLivre downloader for a chapter without pages.
pub fn chapter_empty_message(chapter: &str) -> (r: String)
    ensures
        r@ == "Chapter "@ + chapter@ + " has no pages"@,
{
    let a = join2("Chapter ", chapter);
    let r = join2(a.as_str(), " has no pages");
    proof {
        assert(r@ =~= "Chapter "@ + chapter@ + " has no pages"@);
    }
    r
}

/// The failure of a MangaLivre download that saved no page.
pub fn no_pages_message(selected: u64) -> (r: String)
    ensures
        r@ == "No pages were downloaded from MangaLivre ("@ + decimal(selected as nat) + " selected chapters)"@,
{
    let a = join2("No pages were downloaded from MangaLivre (", decimal_string(selected).as_str());
    let r = join2(a.as_str(), " selected chapters)");
    proof {
        assert(r@ =~= "No pages were downloaded from MangaLivre ("@ + decimal(selected as nat) + " selected chapters)"@);
    }
    r
}

// ---------------------------------------------------------------------------
// Settings
// ---------------------------------------------------------------------------

/// A new library folder, trimmed; refused when empty.
pub fn validate_library_path(new_path: &str) -> (r: Result<String, String>)
    ensures
        match r {
            Ok(p) => p@ == crate::text::trim_spec(new_path@) && p@.len() > 0,
            Err(m) => crate::text::trim_spec(new_path@).len() == 0 && m@ == "Library path cannot be empty"@,
        },
{
    let t = crate::search::trimmed_text(new_path);
    if t.as_str().is_empty() {
        Err(owned("Library path cannot be empty"))
    } else {
        Ok(t)
    }
}

// ---------------------------------------------------------------------------
// Sample data
// ---------------------------------------------------------------------------

/// The display name of a source id in the sample data: the known sources by name, others
/// as `Local`.
pub open spec fn sample_source_name(source_id: Seq<char>) -> Seq<char> {
    if source_id == "niadd"@ {
        "Niadd"@
    } else if source_id == "mangalivre"@ {
        "Manga Livre"@
    } else if source_id == "unionmangas"@ {
        "Union Mangás"@
    } else if source_id == "nexus"@ {
        "Nexus Scan"@
    } else {
        "Local"@
    }
}

/// The display name of a source id in the sample data.
pub fn sample_source_name_of(source_id: &str) -> (r: String)
    ensures
        r@ == sample_source_name(source_id@),
{
    let v = crate::text::chars_of(source_id);
    if crate::text::same_chars(&v, &crate::text::chars_of("niadd")) {
        owned("Niadd")
    } else if crate::text::same_chars(&v, &crate::text::chars_of("mangalivre")) {
        owned("Manga Livre")
    } else if crate::text::same_chars(&v, &crate::text::chars_of("unionmangas")) {
        owned("Union Mangás")
    } else if crate::text::same_chars(&v, &crate::text::chars_of("nexus")) {
        owned("Nexus Scan")
    } else {
        owned("Local")
    }
}

/// A sample manga: id, title, source id and chapter count.
pub struct SampleManga {
    pub id: String,
    pub title: String,
    pub source_id: String,
    pub chapters: i32,
}

/// The sample records: id, title, source id and chapter count.
pub open spec fn sample_rows() -> Seq<(Seq<char>, Seq<char>, Seq<char>, i32)> {
    seq![
        ("manga_001"@, "Bleach"@, "niadd"@, 366i32),
        ("manga_002"@, "Naruto"@, "niadd"@, 700i32),
        ("manga_003"@, "One Piece"@, "mangalivre"@, 1100i32),
        ("manga_004"@, "Death Note"@, "mangalivre"@, 37i32),
        ("manga_005"@, "Attack on Titan"@, "niadd"@, 139i32),
        ("manga_006"@, "My Hero Academia"@, "mangalivre"@, 426i32),
        ("manga_007"@, "Demon Slayer"@, "unionmangas"@, 205i32),
        ("manga_008"@, "Jujutsu Kaisen"@, "unionmangas"@, 271i32),
        ("manga_009"@, "Tokyo Ghoul"@, "nexus"@, 174i32),
        ("manga_010"@, "Chainsaw Man"@, "nexus"@, 97i32),
    ]
}

/// A sample record as plain values.
pub open spec fn sample_row_of(m: SampleManga) -> (Seq<char>, Seq<char>, Seq<char>, i32) {
    (m.id@, m.title@, m.source_id@, m.chapters)
}

/// The sample manga inserted for testing the interface.
pub fn sample_manga() -> (r: Vec<SampleManga>)
    ensures
        r@.len() == sample_rows().len(),
        forall|i: int| 0 <= i < r@.len() ==> sample_row_of(#[trigger] r@[i]) == sample_rows()[i],
{
    vec![
        SampleManga { id: owned("manga_001"), title: owned("Bleach"), source_id: owned("niadd"), chapters: 366 },
        SampleManga { id: owned("manga_002"), title: owned("Naruto"), source_id: owned("niadd"), chapters: 700 },
        SampleManga { id: owned("manga_003"), title: owned("One Piece"), source_id: owned("mangalivre"), chapters: 1100 },
        SampleManga { id: owned("manga_004"), title: owned("Death Note"), source_id: owned("mangalivre"), chapters: 37 },
        SampleManga { id: owned("manga_005"), title: owned("Attack on Titan"), source_id: owned("niadd"), chapters: 139 },
        SampleManga { id: owned("manga_006"), title: owned("My Hero Academia"), source_id: owned("mangalivre"), chapters: 426 },
        SampleManga { id: owned("manga_007"), title: owned("Demon Slayer"), source_id: owned("unionmangas"), chapters: 205 },
        SampleManga { id: owned("manga_008"), title: owned("Jujutsu Kaisen"), source_id: owned("unionmangas"), chapters: 271 },
        SampleManga { id: owned("manga_009"), title: owned("Tokyo Ghoul"), source_id: owned("nexus"), chapters: 174 },
        SampleManga { id: owned("manga_010"), title: owned("Chainsaw Man"), source_id: owned("nexus"), chapters: 97 },
    ]
}

/// The synopsis of a sample manga.
pub fn sample_synopsis(title: &str) -> (r: String)
    ensures
        r@ == "A popular manga series: "@ + title@,
{
    join2("A popular manga series: ", title)
}

/// The folder of a sample manga.
pub fn sample_path(title: &str) -> (r: String)
    ensures
        r@ == "/library/"@ + title@,
{
    join2("/library/", title)
}

} // verus!
