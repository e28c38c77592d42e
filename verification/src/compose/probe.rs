//! Probing a workload: which programs it needs, and which directories outside the system's it is
//! read from.

use crate::layout;
use crate::layout::push_line;
use crate::path;
use crate::path::{join, parent};
use crate::text;
use crate::text::{concat2, concat5, has_text, same, starts_with, text_lossy};
use crate::words;
use crate::words::{split_on, words_of};
use vstd::prelude::*;
use vstd::string::*;

verus! {

/// The directories of the system: what lies below them is readable under any template.
pub const SYSTEM_PREFIXES: [&'static str; 5] = ["/usr/", "/lib/", "/lib64/", "/bin/", "/sbin/"];

/// A directory that is to be readable.
#[derive(Debug)]
pub struct FsGrant {
    /// The directory, as a glob.
    pub path: String,
    /// Why.
    pub reason: String,
}

/// What a probe found.
#[derive(Debug)]
pub struct ProbeResult {
    /// The workload.
    pub workload: String,
    /// What is to be executable: interpreters and loaders, and the workload.
    pub exec_allow: Vec<String>,
    /// The directories outside the system's that are to be readable.
    pub extra_fs_read: Vec<FsGrant>,
    /// Whether the workload is a script.
    pub is_script: bool,
    /// What the operator is to know.
    pub warnings: Vec<String>,
}

// ---- reading the head ----------------------------------------------------------

/// Where the first line ends.
pub open spec fn line_end(b: Seq<u8>) -> int
    decreases b.len(),
{
    if b.len() == 0 || b[0] == 10 {
        0
    } else {
        1 + line_end(b.drop_first())
    }
}

proof fn lemma_line_end(b: Seq<u8>)
    ensures
        0 <= line_end(b) <= b.len(),
    decreases b.len(),
{
    if b.len() > 0 && b[0] != 10 {
        lemma_line_end(b.drop_first());
    }
}

/// What a workload is by its first bytes.
#[derive(Debug)]
pub enum Head {
    /// A script that names its interpreter.
    Direct(String),
    /// A script that names a program for `/usr/bin/env` to find.
    Env(String),
    /// A binary.
    Elf,
}

/// The first of the words that is no flag.
pub open spec fn first_plain(ws: Seq<Seq<char>>) -> Option<Seq<char>>
    decreases ws.len(),
{
    if ws.len() == 0 {
        None
    } else if ws[0].len() > 0 && ws[0][0] == '-' {
        first_plain(ws.drop_first())
    } else {
        Some(ws[0])
    }
}

/// What a workload is by the words of its first line.
pub enum HeadModel {
    /// A script that names its interpreter.
    Direct(Seq<char>),
    /// A script that names a program for `/usr/bin/env` to find.
    Env(Seq<char>),
    /// A binary.
    Elf,
    /// Neither; the error.
    Fault(Seq<char>),
}

/// What the words behind `#!` say.
pub open spec fn script_model(ws: Seq<Seq<char>>) -> HeadModel {
    if ws.len() == 0 || !(ws[0].len() > 0 && ws[0][0] == '/') {
        HeadModel::Fault("script has an empty or relative shebang — cannot probe"@)
    } else if ws[0] == "/usr/bin/env"@ {
        match first_plain(ws.skip(1)) {
            Some(p) => HeadModel::Env(p),
            None => HeadModel::Fault("#!/usr/bin/env with no program name"@),
        }
    } else {
        HeadModel::Direct(ws[0])
    }
}

/// What a workload is by its bytes.
pub open spec fn head_model(workload: Seq<char>, data: Seq<u8>) -> HeadModel {
    if data.len() >= 2 && data[0] == 35 && data[1] == 33 {
        let rest = data.skip(2);
        script_model(words::words(text::lossy_text(rest.take(line_end(rest)))))
    } else if data.len() >= 4 && data[0] == 127 && data[1] == 69 && data[2] == 76 && data[3] == 70 {
        HeadModel::Elf
    } else {
        HeadModel::Fault(
            workload + ": not an ELF binary or a #! script — is it chmod +x?"@,
        )
    }
}

/// Whether a result is what the model says.
pub open spec fn reads_head(r: Result<Head, String>, m: HeadModel) -> bool {
    match m {
        HeadModel::Direct(i) => r matches Ok(Head::Direct(s)) && s@ == i,
        HeadModel::Env(p) => r matches Ok(Head::Env(s)) && s@ == p,
        HeadModel::Elf => r matches Ok(Head::Elf),
        HeadModel::Fault(e) => r matches Err(s) && s@ == e,
    }
}

fn begins_with(w: &str, c: char) -> (r: bool)
    ensures
        r == (w@.len() > 0 && w@[0] == c),
{
    w.unicode_len() > 0 && w.get_char(0) == c
}

/// What the words behind `#!` say of a script: its interpreter, which is absolute, or the program
/// that `/usr/bin/env` is to find, behind its flags.
pub fn script_head(ws: &[String]) -> (r: Result<Head, String>)
    ensures
        reads_head(r, script_model(text::texts(ws@))),
{
    let ghost all = text::texts(ws@);
    assert(all.len() == ws@.len());
    if ws.len() == 0 {
        return Err("script has an empty or relative shebang — cannot probe".to_owned());
    }
    assert(all[0] == ws@[0]@);
    if !begins_with(ws[0].as_str(), '/') {
        return Err("script has an empty or relative shebang — cannot probe".to_owned());
    }
    if !same(ws[0].as_str(), "/usr/bin/env") {
        return Ok(Head::Direct(ws[0].clone()));
    }
    let mut i: usize = 1;
    while i < ws.len()
        invariant
            1 <= i <= ws@.len(),
            all == text::texts(ws@),
            all[0] == "/usr/bin/env"@,
            all[0].len() > 0 && all[0][0] == '/',
            first_plain(all.skip(i as int)) == first_plain(all.skip(1)),
        decreases ws@.len() - i,
    {
        proof {
            assert(all.skip(i as int)[0] == ws@[i as int]@);
            assert(all.skip(i as int).drop_first() =~= all.skip(i + 1));
        }
        if !begins_with(ws[i].as_str(), '-') {
            return Ok(Head::Env(ws[i].clone()));
        }
        i = i + 1;
    }
    Err("#!/usr/bin/env with no program name".to_owned())
}

/// What a workload is by its bytes: a script by its first line, or a binary.
pub fn probe_head(workload: &str, data: &[u8]) -> (r: Result<Head, String>)
    ensures
        reads_head(r, head_model(workload@, data@)),
{
    let n: usize = data.len();
    if n >= 2 && data[0] == 35 && data[1] == 33 {
        let ghost rest = data@.skip(2);
        let mut i: usize = 2;
        assert(rest.skip(0) =~= rest);
        while i < n && data[i] != 10
            invariant
                2 <= i <= n,
                n == data@.len(),
                rest == data@.skip(2),
                (i - 2) + line_end(rest.skip(i - 2)) == line_end(rest),
            decreases n - i,
        {
            proof {
                assert(rest.skip(i - 2)[0] == data@[i as int]);
                assert(rest.skip(i - 2).drop_first() =~= rest.skip(i - 1));
            }
            i = i + 1;
        }
        proof {
            if i < n {
                assert(rest.skip(i - 2)[0] == data@[i as int]);
            } else {
                assert(rest.skip(i - 2).len() == 0);
            }
            lemma_line_end(rest);
        }
        let line = vstd::slice::slice_subrange(data, 2, i);
        assert(line@ =~= rest.take(line_end(rest)));
        let t = text_lossy(line);
        let ws = words_of(t.as_str());
        script_head(ws.as_slice())
    } else if n >= 4 && data[0] == 127 && data[1] == 69 && data[2] == 76 && data[3] == 70 {
        Ok(Head::Elf)
    } else {
        Err(concat2(workload, ": not an ELF binary or a #! script — is it chmod +x?"))
    }
}

// ---- directories ---------------------------------------------------------------

/// Whether a path lies below a directory of the system.
pub open spec fn in_system(p: Seq<char>) -> bool {
    exists|i: int|
        0 <= i < 5 && (#[trigger] text::strs(SYSTEM_PREFIXES@)[i]).is_prefix_of(p)
}

fn is_system(p: &str) -> (r: bool)
    ensures
        r == in_system(p@),
{
    let all: &[&'static str] = &SYSTEM_PREFIXES;
    let ghost ps = text::strs(SYSTEM_PREFIXES@);
    let mut i: usize = 0;
    while i < all.len()
        invariant
            i <= all@.len(),
            all@ == SYSTEM_PREFIXES@,
            all@.len() == 5,
            ps == text::strs(SYSTEM_PREFIXES@),
            forall|j: int| 0 <= j < i ==> !(#[trigger] ps[j]).is_prefix_of(p@),
        decreases all@.len() - i,
    {
        if starts_with(p, all[i]) {
            assert(ps[i as int].is_prefix_of(p@));
            return true;
        }
        i = i + 1;
    }
    false
}

/// Directories and why they are to be readable.
pub open spec fn grants(v: Seq<FsGrant>) -> Seq<(Seq<char>, Seq<char>)> {
    v.map_values(|g: FsGrant| (g.path@, g.reason@))
}

/// Whether a directory is among the grants.
pub open spec fn granted(gs: Seq<(Seq<char>, Seq<char>)>, p: Seq<char>) -> bool {
    exists|i: int| 0 <= i < gs.len() && (#[trigger] gs[i]).0 == p
}

/// The grants with that of the directory of `p`, where it lies outside the system's and is not among
/// them yet.
pub open spec fn noted(
    gs: Seq<(Seq<char>, Seq<char>)>,
    p: Seq<char>,
    context: Seq<char>,
) -> Seq<(Seq<char>, Seq<char>)> {
    match path::parent_of(p) {
        Some(d) if !in_system(p) && !granted(gs, d + "/**"@) => gs.push(
            (
                d + "/**"@,
                context + " — review whether this path is correct for the kennel"@,
            ),
        ),
        _ => gs,
    }
}

/// Notes the directory of a path outside the system's, once.
pub fn note_if_non_system(p: &str, extra_fs_read: &mut Vec<FsGrant>, reason_context: &str)
    ensures
        grants(final(extra_fs_read)@) == noted(
            grants(old(extra_fs_read)@),
            p@,
            reason_context@,
        ),
{
    let ghost gs = grants(extra_fs_read@);
    if is_system(p) {
        return;
    }
    if let Some(d) = parent(p) {
        let glob = concat2(d.as_str(), "/**");
        let mut i: usize = 0;
        while i < extra_fs_read.len()
            invariant
                i <= extra_fs_read@.len(),
                *extra_fs_read == *old(extra_fs_read),
                gs == grants(extra_fs_read@),
                !in_system(p@),
                path::parent_of(p@) == Some(d@),
                glob@ == d@ + "/**"@,
                forall|j: int| 0 <= j < i ==> (#[trigger] gs[j]).0 != glob@,
            decreases extra_fs_read@.len() - i,
        {
            assert(gs[i as int].0 == extra_fs_read@[i as int].path@);
            if same(extra_fs_read[i].path.as_str(), glob.as_str()) {
                assert(granted(gs, glob@));
                return;
            }
            i = i + 1;
        }
        let ghost before = extra_fs_read@;
        extra_fs_read.push(
            FsGrant {
                path: glob,
                reason: concat2(
                    reason_context,
                    " — review whether this path is correct for the kennel",
                ),
            },
        );
        assert(grants(extra_fs_read@) =~= gs.push(
            (
                d@ + "/**"@,
                reason_context@ + " — review whether this path is correct for the kennel"@,
            ),
        ));
    }
}

/// The places of a program on the search path.
pub open spec fn search_places(path_var: Seq<char>, name: Seq<char>) -> Seq<Seq<char>> {
    words::pieces(path_var, ':').map_values(|d: Seq<char>| path::joined(d, name))
}

/// The places of a program on the search path, in its order.
pub fn path_candidates(path_var: &str, name: &str) -> (out: Vec<String>)
    ensures
        text::texts(out@) == search_places(path_var@, name@),
{
    let dirs = split_on(path_var, ':');
    let ghost want = search_places(path_var@, name@);
    let mut out: Vec<String> = Vec::new();
    let mut i: usize = 0;
    assert(text::texts(out@) =~= want.take(0));
    while i < dirs.len()
        invariant
            i <= dirs@.len(),
            text::texts(dirs@) == words::pieces(path_var@, ':'),
            want == search_places(path_var@, name@),
            text::texts(out@) == want.take(i as int),
        decreases dirs@.len() - i,
    {
        push_line(&mut out, join(dirs[i].as_str(), name));
        i = i + 1;
        proof {
            assert(text::texts(dirs@)[i - 1] == dirs@[i - 1]@);
            assert(text::texts(out@) =~= want.take(i as int));
        }
    }
    proof {
        assert(text::texts(dirs@).len() == dirs@.len());
        assert(want.take(want.len() as int) =~= want);
    }
    out
}

// ---- the probe -----------------------------------------------------------------

/// The texts, each where it stands first.
pub open spec fn once(v: Seq<Seq<char>>) -> Seq<Seq<char>>
    decreases v.len(),
{
    if v.len() == 0 {
        seq![]
    } else if once(v.drop_last()).contains(v.last()) {
        once(v.drop_last())
    } else {
        once(v.drop_last()).push(v.last())
    }
}

fn keep_first(v: &[String]) -> (out: Vec<String>)
    ensures
        text::texts(out@) == once(text::texts(v@)),
{
    let ghost all = text::texts(v@);
    let mut out: Vec<String> = Vec::new();
    let mut i: usize = 0;
    proof {
        assert(all.take(0) =~= seq![]);
        assert(text::texts(out@) =~= seq![]);
    }
    while i < v.len()
        invariant
            i <= v@.len(),
            all == text::texts(v@),
            text::texts(out@) == once(all.take(i as int)),
        decreases v@.len() - i,
    {
        proof {
            assert(all.take(i + 1).drop_last() =~= all.take(i as int));
            assert(all.take(i + 1).last() == v@[i as int]@);
        }
        if !has_text(out.as_slice(), v[i].as_str()) {
            push_line(&mut out, v[i].clone());
        }
        i = i + 1;
    }
    assert(all.take(all.len() as int) =~= all);
    out
}

/// What is executed for the workload, but for the workload itself.
pub open spec fn needed(m: HeadModel, found: Option<Seq<char>>, loaders: Seq<Seq<char>>) -> Seq<
    Seq<char>,
> {
    match m {
        HeadModel::Direct(i) => seq![i],
        HeadModel::Env(_) => match found {
            Some(f) => seq!["/usr/bin/env"@, f],
            None => seq!["/usr/bin/env"@],
        },
        _ => loaders,
    }
}

/// The directories that what is executed is read from.
pub open spec fn needed_dirs(m: HeadModel, found: Option<Seq<char>>, workload: Seq<char>) -> Seq<
    (Seq<char>, Seq<char>),
> {
    let first = match m {
        HeadModel::Direct(i) => noted(seq![], i, "shebang interpreter "@ + i),
        HeadModel::Env(p) => match found {
            Some(f) => noted(
                seq![],
                f,
                p + " interpreter (resolved from #!/usr/bin/env "@ + p + ")"@,
            ),
            None => seq![],
        },
        _ => seq![],
    };
    noted(first, workload, "probed workload"@)
}

/// What the operator is to know.
pub open spec fn advice(m: HeadModel, found: Option<Seq<char>>, loader_warnings: Seq<Seq<char>>) -> Seq<
    Seq<char>,
> {
    match m {
        HeadModel::Env(p) => layout::line_if(
            found is None,
            "#!/usr/bin/env "@ + p + ": could not resolve `"@ + p
                + "` on $PATH; add the absolute path to exec.allow manually"@,
        ),
        HeadModel::Elf => loader_warnings,
        _ => seq![],
    }
}

impl ProbeResult {
    /// Whether this is what the probe of a workload finds.
    pub open spec fn finds(
        self,
        workload: Seq<char>,
        m: HeadModel,
        found: Option<Seq<char>>,
        loaders: Seq<Seq<char>>,
        loader_warnings: Seq<Seq<char>>,
    ) -> bool {
        &&& self.workload@ == workload
        &&& text::texts(self.exec_allow@) == once(needed(m, found, loaders).push(workload))
        &&& grants(self.extra_fs_read@) == needed_dirs(m, found, workload)
        &&& self.is_script == !(m is Elf)
        &&& text::texts(self.warnings@) == advice(m, found, loader_warnings)
    }
}

/// The text behind a reference, where there is one.
pub open spec fn seen(s: Option<&str>) -> Option<Seq<char>> {
    match s {
        Some(t) => Some(t@),
        None => None,
    }
}

/// What the probe of a workload finds: `found` is where the program of `/usr/bin/env` is, and
/// `loaders` are the loaders of a binary, with what is to be said of them.
pub fn probe(
    workload: &str,
    data: &[u8],
    found: Option<&str>,
    loaders: &[String],
    loader_warnings: &[String],
) -> (r: Result<ProbeResult, String>)
    ensures
        match head_model(workload@, data@) {
            HeadModel::Fault(e) => r matches Err(m) && m@ == e,
            m => r matches Ok(p) && p.finds(
                workload@,
                m,
                seen(found),
                text::texts(loaders@),
                text::texts(loader_warnings@),
            ),
        },
{
    let ghost m = head_model(workload@, data@);
    let head = match probe_head(workload, data) {
        Err(e) => {
            return Err(e);
        },
        Ok(h) => h,
    };
    let mut exec_allow: Vec<String> = Vec::new();
    let mut dirs: Vec<FsGrant> = Vec::new();
    let mut warnings: Vec<String> = Vec::new();
    let mut is_script = true;
    proof {
        assert(text::texts(exec_allow@) =~= seq![]);
        assert(text::texts(warnings@) =~= seq![]);
        assert(grants(dirs@) =~= seq![]);
    }
    match &head {
        Head::Direct(i) => {
            push_line(&mut exec_allow, i.clone());
            let why = concat2("shebang interpreter ", i.as_str());
            note_if_non_system(i.as_str(), &mut dirs, why.as_str());
        },
        Head::Env(p) => {
            push_line(&mut exec_allow, "/usr/bin/env".to_owned());
            match found {
                Some(f) => {
                    let why = concat5(
                        p.as_str(),
                        " interpreter (resolved from #!/usr/bin/env ",
                        p.as_str(),
                        ")",
                        "",
                    );
                    proof {
                        reveal_strlit("");
                        assert(why@ =~= p@ + " interpreter (resolved from #!/usr/bin/env "@ + p@
                            + ")"@);
                    }
                    note_if_non_system(f, &mut dirs, why.as_str());
                    push_line(&mut exec_allow, f.to_owned());
                },
                None => {
                    push_line(
                        &mut warnings,
                        concat5(
                            "#!/usr/bin/env ",
                            p.as_str(),
                            ": could not resolve `",
                            p.as_str(),
                            "` on $PATH; add the absolute path to exec.allow manually",
                        ),
                    );
                },
            }
        },
        Head::Elf => {
            is_script = false;
            layout::push_lines(&mut exec_allow, loaders);
            layout::push_lines(&mut warnings, loader_warnings);
        },
    }
    proof {
        assert(text::texts(exec_allow@) =~= needed(m, seen(found), text::texts(loaders@)));
        assert(text::texts(warnings@) =~= advice(m, seen(found), text::texts(loader_warnings@)));
    }
    push_line(&mut exec_allow, workload.to_owned());
    note_if_non_system(workload, &mut dirs, "probed workload");
    let exec_allow = keep_first(exec_allow.as_slice());
    Ok(
        ProbeResult {
            workload: workload.to_owned(),
            exec_allow,
            extra_fs_read: dirs,
            is_script,
            warnings,
        },
    )
}

/// The workload is always among what may be executed, and nothing is listed twice.
pub proof fn law_workload_may_be_executed(v: Seq<Seq<char>>, workload: Seq<char>)
    ensures
        once(v.push(workload)).contains(workload),
        forall|i: int, j: int|
            0 <= i < j < once(v).len() ==> #[trigger] once(v)[i] != #[trigger] once(v)[j],
        forall|t: Seq<char>| #[trigger] once(v).contains(t) <==> v.contains(t),
    decreases v.len(),
{
    assert(v.push(workload).drop_last() =~= v);
    if !once(v).contains(workload) {
        let r = once(v).push(workload);
        assert(r[r.len() - 1] == workload);
    }
    if v.len() > 0 {
        let front = v.drop_last();
        law_workload_may_be_executed(front, workload);
        assert(v =~= front.push(v.last()));
        assert forall|t: Seq<char>| #[trigger] once(v).contains(t) <==> v.contains(t) by {
            assert(v.contains(t) <==> front.contains(t) || t == v.last()) by {
                if front.contains(t) {
                    let k = choose|k: int| 0 <= k < front.len() && front[k] == t;
                    assert(v[k] == t);
                }
                if t == v.last() {
                    assert(v[v.len() - 1] == t);
                }
                if v.contains(t) && t != v.last() {
                    let k = choose|k: int| 0 <= k < v.len() && v[k] == t;
                    assert(front[k] == t);
                }
            }
            assert(once(front).contains(t) <==> front.contains(t));
            if !once(front).contains(v.last()) {
                let r = once(front).push(v.last());
                if once(front).contains(t) {
                    let k = choose|k: int| 0 <= k < once(front).len() && once(front)[k] == t;
                    assert(r[k] == t);
                }
                if t == v.last() {
                    assert(r[r.len() - 1] == t);
                }
                if r.contains(t) && t != v.last() {
                    let k = choose|k: int| 0 <= k < r.len() && r[k] == t;
                    assert(once(front)[k] == t);
                }
            }
        }
        assert forall|i: int, j: int| 0 <= i < j < once(v).len() implies #[trigger] once(v)[i]
            != #[trigger] once(v)[j] by {
            let f = once(front);
            assert(once(v)[i] == f[i]);
            if j < f.len() {
                assert(once(v)[j] == f[j]);
            } else {
                assert(f.contains(f[i]));
            }
        }
    }
}

/// A binary needs just its loaders and itself executable, and is no script; what is to be said of the
/// loaders is passed on.
pub proof fn law_a_binary_needs_its_loaders(
    workload: &str,
    data: &[u8],
    found: Option<&str>,
    loaders: &[String],
    loader_warnings: &[String],
    r: Result<ProbeResult, String>,
)
    requires
        call_ensures(probe, (workload, data, found, loaders, loader_warnings), r),
        data@.len() >= 4,
        data@.take(4) == seq![0x7fu8, 0x45u8, 0x4cu8, 0x46u8],
    ensures
        r is Ok,
        r->Ok_0.workload@ == workload@,
        !r->Ok_0.is_script,
        forall|t: Seq<char>| #[trigger]
            text::texts(r->Ok_0.exec_allow@).contains(t) <==> t == workload@ || text::texts(
                loaders@,
            ).contains(t),
        text::texts(r->Ok_0.warnings@) == text::texts(loader_warnings@),
{
    assert(data@[0] == data@.take(4)[0]);
    assert(data@[1] == data@.take(4)[1]);
    assert(data@[2] == data@.take(4)[2]);
    assert(data@[3] == data@.take(4)[3]);
    let all = text::texts(loaders@);
    law_workload_may_be_executed(all.push(workload@), workload@);
    assert forall|t: Seq<char>| #[trigger]
        text::texts(r->Ok_0.exec_allow@).contains(t) <==> t == workload@ || all.contains(t) by {
        assert(once(all.push(workload@)).contains(t) <==> all.push(workload@).contains(t));
        lemma_one_more(all, workload@, t);
    }
}

proof fn lemma_one_more(v: Seq<Seq<char>>, x: Seq<char>, t: Seq<char>)
    ensures
        v.push(x).contains(t) <==> v.contains(t) || t == x,
{
    let w = v.push(x);
    if v.contains(t) {
        let i = choose|i: int| 0 <= i < v.len() && v[i] == t;
        assert(w[i] == t);
    }
    if t == x {
        assert(w[v.len() as int] == t);
    }
    if w.contains(t) && t != x {
        let i = choose|i: int| 0 <= i < w.len() && w[i] == t;
        assert(v[i] == t);
    }
}

/// A script needs what its first line names, and itself, executable: its interpreter, or
/// `/usr/bin/env` and the program that this is to find, where it was found; where it was not, the
/// operator is told.
pub proof fn law_a_script_needs_its_interpreter(
    workload: &str,
    data: &[u8],
    found: Option<&str>,
    loaders: &[String],
    loader_warnings: &[String],
    head: Result<Head, String>,
    r: Result<ProbeResult, String>,
)
    requires
        call_ensures(probe, (workload, data, found, loaders, loader_warnings), r),
        call_ensures(probe_head, (workload, data), head),
    ensures
        head is Err <==> r is Err,
        data@.len() >= 2 && data@[0] == 0x23 && data@[1] == 0x21 ==> !(head matches Ok(Head::Elf)),
        head matches Ok(Head::Direct(i)) ==> r->Ok_0.is_script && r->Ok_0.warnings@.len() == 0
            && forall|t: Seq<char>| #[trigger]
            text::texts(r->Ok_0.exec_allow@).contains(t) <==> t == i@ || t == workload@,
        head matches Ok(Head::Env(_)) && found is Some ==> r->Ok_0.is_script
            && r->Ok_0.warnings@.len() == 0 && forall|t: Seq<char>| #[trigger]
            text::texts(r->Ok_0.exec_allow@).contains(t) <==> t == "/usr/bin/env"@ || t
                == found->0@ || t == workload@,
        head matches Ok(Head::Env(_)) && found is None ==> r->Ok_0.is_script
            && r->Ok_0.warnings@.len() == 1 && forall|t: Seq<char>| #[trigger]
            text::texts(r->Ok_0.exec_allow@).contains(t) <==> t == "/usr/bin/env"@ || t
                == workload@,
{
    if r is Ok {
        let m = head_model(workload@, data@);
        let need = needed(m, seen(found), text::texts(loaders@));
        let got = text::texts(r->Ok_0.exec_allow@);
        law_workload_may_be_executed(need.push(workload@), workload@);
        assert(text::texts(r->Ok_0.warnings@).len() == r->Ok_0.warnings@.len());
        assert forall|t: Seq<char>| #[trigger]
            got.contains(t) <==> t == workload@ || need.contains(t) by {
            assert(once(need.push(workload@)).contains(t) <==> need.push(workload@).contains(t));
            lemma_one_more(need, workload@, t);
        }
        if let Ok(Head::Direct(i)) = head {
            assert(need == seq![i@]);
            assert forall|t: Seq<char>| #[trigger] got.contains(t) <==> t == i@ || t == workload@ by {
                if t == i@ {
                    assert(need[0] == t);
                }
            }
        }
        if let Ok(Head::Env(_)) = head {
            assert forall|t: Seq<char>| #[trigger]
                need.contains(t) <==> t == "/usr/bin/env"@ || (found is Some && t == found->0@) by {
                if t == "/usr/bin/env"@ {
                    assert(need[0] == t);
                }
                if found is Some && t == found->0@ {
                    assert(need[1] == t);
                }
            }
        }
    }
}

proof fn lemma_plain_behind_flags(flags: Seq<Seq<char>>, program: Seq<char>, rest: Seq<Seq<char>>)
    requires
        forall|i: int|
            0 <= i < flags.len() ==> (#[trigger] flags[i]).len() > 0 && flags[i][0] == '-',
        program.len() > 0 && program[0] != '-',
    ensures
        first_plain(flags + seq![program] + rest) == Some(program),
    decreases flags.len(),
{
    let all = flags + seq![program] + rest;
    if flags.len() == 0 {
        assert(all[0] == program);
    } else {
        let more = flags.drop_first();
        assert(all[0] == flags[0]);
        assert(all.drop_first() =~= more + seq![program] + rest);
        assert forall|i: int| 0 <= i < more.len() implies (#[trigger] more[i]).len() > 0 && more[i][0]
            == '-' by {
            assert(more[i] == flags[i + 1]);
        }
        lemma_plain_behind_flags(more, program, rest);
    }
}

/// The interpreter of a script is the first word of its first line, which is absolute; behind
/// `/usr/bin/env` it is the first word that is no flag.
pub proof fn law_interpreter_is_read_from_the_first_line(
    ws: &[String],
    r: Result<Head, String>,
    flags: Seq<Seq<char>>,
    program: Seq<char>,
    rest: Seq<Seq<char>>,
)
    requires
        call_ensures(script_head, (ws,), r),
    ensures
        ws@.len() > 0 && ws@[0]@.len() > 0 && ws@[0]@[0] == '/' && ws@[0]@ != "/usr/bin/env"@ ==> (
        r matches Ok(Head::Direct(i)) && i@ == ws@[0]@),
        ws@.len() == 0 || ws@[0]@.len() == 0 || ws@[0]@[0] != '/' ==> r is Err,
        text::texts(ws@) == seq!["/usr/bin/env"@] + (flags + seq![program] + rest) && (forall|i: int|
            0 <= i < flags.len() ==> (#[trigger] flags[i]).len() > 0 && flags[i][0] == '-')
            && program.len() > 0 && program[0] != '-' ==> (r matches Ok(Head::Env(p)) && p@
            == program),
{
    let all = text::texts(ws@);
    assert(all.len() == ws@.len());
    if ws@.len() > 0 {
        assert(all[0] == ws@[0]@);
    }
    if all == seq!["/usr/bin/env"@] + (flags + seq![program] + rest) && (forall|i: int|
        0 <= i < flags.len() ==> (#[trigger] flags[i]).len() > 0 && flags[i][0] == '-')
        && program.len() > 0 && program[0] != '-' {
        reveal_strlit("/usr/bin/env");
        assert(all[0] == "/usr/bin/env"@);
        assert(all.skip(1) =~= flags + seq![program] + rest);
        lemma_plain_behind_flags(flags, program, rest);
    }
}

/// Whether a path starts with a directory of the system.
pub open spec fn starts_in_system(p: Seq<char>) -> bool {
    ||| "/usr/"@.is_prefix_of(p)
    ||| "/lib/"@.is_prefix_of(p)
    ||| "/lib64/"@.is_prefix_of(p)
    ||| "/bin/"@.is_prefix_of(p)
    ||| "/sbin/"@.is_prefix_of(p)
}

proof fn lemma_in_system(p: Seq<char>)
    ensures
        in_system(p) == starts_in_system(p),
{
    let ps = text::strs(SYSTEM_PREFIXES@);
    assert(ps[0] == "/usr/"@);
    assert(ps[1] == "/lib/"@);
    assert(ps[2] == "/lib64/"@);
    assert(ps[3] == "/bin/"@);
    assert(ps[4] == "/sbin/"@);
    if starts_in_system(p) {
        assert(ps[0].is_prefix_of(p) || ps[1].is_prefix_of(p) || ps[2].is_prefix_of(p)
            || ps[3].is_prefix_of(p) || ps[4].is_prefix_of(p));
    }
}

/// The directory of a path outside the system's becomes readable, once; nothing else does, and what
/// was readable stays so.
pub proof fn law_directories_outside_the_system_are_noted(
    p: &str,
    extra: &mut Vec<FsGrant>,
    context: &str,
    r: (),
)
    requires
        call_ensures(note_if_non_system, (p, extra, context), r),
    ensures
        grants(old(extra)@).is_prefix_of(grants(final(extra)@)),
        final(extra)@.len() <= old(extra)@.len() + 1,
        starts_in_system(p@) ==> final(extra)@.len() == old(extra)@.len(),
        !starts_in_system(p@) && path::parent_of(p@) is Some ==> granted(
            grants(final(extra)@),
            path::parent_of(p@)->0 + "/**"@,
        ),
        final(extra)@.len() > old(extra)@.len() ==> final(extra)@.last().path@ == path::parent_of(
            p@,
        )->0 + "/**"@ && !granted(grants(old(extra)@), path::parent_of(p@)->0 + "/**"@),
{
    lemma_in_system(p@);
    let was = grants(old(extra)@);
    let is = grants(final(extra)@);
    assert(was.len() == old(extra)@.len());
    assert(is.len() == final(extra)@.len());
    assert(was =~= is.take(was.len() as int));
    if is.len() > was.len() {
        assert(is.last().0 == final(extra)@.last().path@);
        assert(is[was.len() as int].0 == path::parent_of(p@)->0 + "/**"@);
    }
}

} // verus!
