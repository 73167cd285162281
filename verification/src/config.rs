//! Data models of the project configuration and the run STATE, and the rules that read them.
//!
//! Reading and writing the files is done by the caller; this module turns what was read into
//! a `Config` or a `State`, or into the error the command reports.
use crate::errors::{corrupt, usage, CairnError};
use crate::stages::{parse_mode, parse_stage, is_valid_path_mode, is_valid_stage};
use crate::strmap::StrMap;
use crate::text::{concat, concat3, debug_str, debug_text, starts_with, string_of, to_chars, slice_chars, from_chars};
use vstd::prelude::*;

verus! {

/// One repository of the project.
#[derive(Debug, Clone)]
pub struct Repo {
    pub name: String,
    pub path: String,
}

/// The path a repository has when `cairnkit.yaml` gives none: the project root.
pub fn dot() -> (r: String)
    ensures
        r@ == "."@,
{
    string_of(".")
}

/// The project configuration (`cairnkit.yaml`), with every path resolved against the project
/// root.
#[derive(Debug)]
pub struct Config {
    pub project: String,
    pub domain: Option<String>,
    pub repos: Vec<Repo>,
    pub root: String,
    pub knowledge_root: String,
    pub knowledge_repo_url: Option<String>,
    pub knowledge_repo_local: Option<String>,
    pub notify_webhook_env: Option<String>,
}

/// The `knowledge_repo` section of `cairnkit.yaml`.
#[derive(Debug, Clone)]
pub struct RawRepoCfg {
    pub url: Option<String>,
    pub local: Option<String>,
}

/// The `notify` section of `cairnkit.yaml`.
#[derive(Debug, Clone)]
pub struct RawNotify {
    pub feishu_webhook_env: Option<String>,
}

/// `cairnkit.yaml` as written, before defaults and path resolution.
#[derive(Debug, Clone)]
pub struct RawConfig {
    pub project: String,
    pub domain: Option<String>,
    pub repos: Vec<Repo>,
    pub knowledge_root: Option<String>,
    pub knowledge_repo: Option<RawRepoCfg>,
    pub notify: Option<RawNotify>,
}

/// What reading a file gave: it is absent, it could not be read, its contents do not decode,
/// or the decoded value.
#[derive(Debug)]
pub enum Loaded<T> {
    Missing,
    Unreadable(String),
    Malformed(String),
    Parsed(T),
}

/// `rel` joined onto `base` as `PathBuf::join` does on Unix: an absolute `rel` replaces
/// `base`, and a separator is put between them unless `base` is empty or already ends with one.
pub open spec fn path_join(base: Seq<char>, rel: Seq<char>) -> Seq<char> {
    if rel.len() > 0 && rel[0] == '/' {
        rel
    } else if base.len() == 0 || base.last() == '/' {
        base + rel
    } else {
        base + seq!['/'] + rel
    }
}

/// Joins a relative path onto a base path.
pub fn join_path(base: &str, rel: &str) -> (r: String)
    ensures
        r@ == path_join(base@, rel@),
{
    let b = to_chars(base);
    let rl = to_chars(rel);
    if rl.len() > 0 && rl[0] == '/' {
        string_of(rel)
    } else if b.len() == 0 || b[b.len() - 1] == '/' {
        concat(base, rel)
    } else {
        proof {
            reveal_strlit("/");
        }
        concat3(base, "/", rel)
    }
}

/// `s` without the separators and `.` components at its front, as `Path` skips them between
/// components.
pub open spec fn trim_lead(s: Seq<char>) -> Seq<char>
    decreases s.len(),
{
    if s.len() > 0 && (s[0] == '/' || (s[0] == '.' && (s.len() == 1 || s[1] == '/'))) {
        trim_lead(s.drop_first())
    } else {
        s
    }
}

pub proof fn lemma_trim_lead_len(s: Seq<char>)
    ensures
        trim_lead(s).len() <= s.len(),
        trim_lead(s).len() > 0 ==> trim_lead(s)[0] != '/',
    decreases s.len(),
{
    if s.len() > 0 && (s[0] == '/' || (s[0] == '.' && (s.len() == 1 || s[1] == '/'))) {
        lemma_trim_lead_len(s.drop_first());
    }
}

/// The position of the first `/` in `s`, or its length.
pub open spec fn sep_index(s: Seq<char>) -> int
    decreases s.len(),
{
    if s.len() == 0 || s[0] == '/' {
        0
    } else {
        1 + sep_index(s.drop_first())
    }
}

pub proof fn lemma_sep_index(s: Seq<char>)
    ensures
        0 <= sep_index(s) <= s.len(),
        sep_index(s) < s.len() ==> s[sep_index(s)] == '/',
        forall|k: int| 0 <= k < sep_index(s) ==> s[k] != '/',
    decreases s.len(),
{
    if s.len() > 0 && s[0] != '/' {
        lemma_sep_index(s.drop_first());
        assert forall|k: int| 0 <= k < sep_index(s) implies s[k] != '/' by {
            if k > 0 {
                assert(s[k] == s.drop_first()[k - 1]);
            }
        }
    }
}

/// Matches the components of `base` against those of `p`, both past their start: on a match,
/// what of `p` follows, without leading separators or `.` components.
pub open spec fn strip_body(p: Seq<char>, base: Seq<char>) -> Option<Seq<char>>
    decreases base.len(),
{
    let b = trim_lead(base);
    if b.len() == 0 {
        Some(trim_lead(p))
    } else {
        let q = trim_lead(p);
        let bi = sep_index(b);
        let qi = sep_index(q);
        if q.len() > 0 && q.take(qi) == b.take(bi) {
            proof {
                lemma_trim_lead_len(base);
                lemma_sep_index(b);
            }
            strip_body(q.skip(qi), b.skip(bi))
        } else {
            None
        }
    }
}

/// Whether a relative path starts with a `.` component.
pub open spec fn starts_cur(s: Seq<char>) -> bool {
    s.len() > 0 && s[0] == '.' && (s.len() == 1 || s[1] == '/')
}

/// `p` with the components of `base` taken off its front, as `Path::strip_prefix` gives it on
/// Unix for a path that ends in a file name: `None` when `base`'s components do not begin `p`'s.
/// Components are separated by `/`, empty and inner `.` components do not count, a leading
/// `/` is the root and a leading `.` component the current directory.
pub open spec fn strip_prefix_spec(p: Seq<char>, base: Seq<char>) -> Option<Seq<char>> {
    if base.len() == 0 {
        Some(p)
    } else if base[0] == '/' {
        if p.len() > 0 && p[0] == '/' {
            strip_body(p.drop_first(), base.drop_first())
        } else {
            None
        }
    } else if p.len() > 0 && p[0] == '/' {
        None
    } else if starts_cur(base) != starts_cur(p) {
        None
    } else if starts_cur(base) {
        strip_body(p.drop_first(), base.drop_first())
    } else {
        strip_body(p, base)
    }
}

fn trim_lead_exec(s: Vec<char>) -> (r: Vec<char>)
    ensures
        r@ == trim_lead(s@),
{
    let mut i: usize = 0;
    assert(s@.skip(0) =~= s@);
    while i < s.len() && (s[i] == '/' || (s[i] == '.' && (i + 1 == s.len() || s[i + 1] == '/')))
        invariant
            i <= s@.len(),
            trim_lead(s@.skip(i as int)) == trim_lead(s@),
        decreases s.len() - i,
    {
        assert(s@.skip(i as int).drop_first() =~= s@.skip(i + 1));
        i = i + 1;
    }
    let r = slice_chars(&s, i, s.len());
    assert(r@ =~= s@.skip(i as int));
    r
}

fn sep_index_exec(s: &Vec<char>) -> (r: usize)
    ensures
        r == sep_index(s@),
{
    let mut i: usize = 0;
    assert(s@.skip(0) =~= s@);
    while i < s.len() && s[i] != '/'
        invariant
            i <= s@.len(),
            sep_index(s@) == i + sep_index(s@.skip(i as int)),
        decreases s.len() - i,
    {
        assert(s@.skip(i as int).drop_first() =~= s@.skip(i + 1));
        i = i + 1;
    }
    i
}

fn strip_body_exec(p: Vec<char>, base: Vec<char>) -> (r: Option<Vec<char>>)
    ensures
        match strip_body(p@, base@) {
            Some(x) => r matches Some(y) && y@ == x,
            None => r is None,
        },
    decreases base@.len(),
{
    proof {
        lemma_trim_lead_len(base@);
    }
    let b = trim_lead_exec(base);
    if b.len() == 0 {
        return Some(trim_lead_exec(p));
    }
    let q = trim_lead_exec(p);
    let bi = sep_index_exec(&b);
    let qi = sep_index_exec(&q);
    proof {
        lemma_sep_index(b@);
        lemma_sep_index(q@);
    }
    if q.len() == 0 {
        return None;
    }
    let qw = slice_chars(&q, 0, qi);
    let bw = slice_chars(&b, 0, bi);
    assert(qw@ =~= q@.take(qi as int));
    assert(bw@ =~= b@.take(bi as int));
    let mut same = qw.len() == bw.len();
    let mut k: usize = 0;
    while same && k < qw.len()
        invariant
            k <= qw@.len(),
            same ==> qw@.len() == bw@.len() && qw@.take(k as int) == bw@.take(k as int),
            !same ==> qw@ != bw@,
        decreases qw.len() - k,
    {
        if qw[k] != bw[k] {
            same = false;
            assert(qw@[k as int] != bw@[k as int]);
        } else {
            assert(qw@.take(k + 1) =~= qw@.take(k as int).push(qw@[k as int]));
            assert(bw@.take(k + 1) =~= bw@.take(k as int).push(bw@[k as int]));
        }
        k = k + 1;
    }
    if !same {
        return None;
    }
    assert(qw@ =~= qw@.take(qw@.len() as int));
    assert(bw@ =~= bw@.take(bw@.len() as int));
    let qr = slice_chars(&q, qi, q.len());
    let br = slice_chars(&b, bi, b.len());
    assert(qr@ =~= q@.skip(qi as int));
    assert(br@ =~= b@.skip(bi as int));
    strip_body_exec(qr, br)
}

/// `p` with the components of `base` taken off its front (see `strip_prefix_spec`).
pub fn strip_prefix_path(p: &str, base: &str) -> (r: Option<String>)
    ensures
        match strip_prefix_spec(p@, base@) {
            Some(x) => r matches Some(y) && y@ == x,
            None => r is None,
        },
{
    let pc = to_chars(p);
    let bc = to_chars(base);
    let pcur = pc.len() > 0 && pc[0] == '.' && (pc.len() == 1 || pc[1] == '/');
    let bcur = bc.len() > 0 && bc[0] == '.' && (bc.len() == 1 || bc[1] == '/');
    let out = if bc.len() == 0 {
        Some(pc)
    } else if bc[0] == '/' {
        if pc.len() > 0 && pc[0] == '/' {
            let pr = slice_chars(&pc, 1, pc.len());
            let br = slice_chars(&bc, 1, bc.len());
            assert(pr@ =~= pc@.drop_first());
            assert(br@ =~= bc@.drop_first());
            strip_body_exec(pr, br)
        } else {
            None
        }
    } else if pc.len() > 0 && pc[0] == '/' {
        None
    } else if pcur != bcur {
        None
    } else if bcur {
        let pr = slice_chars(&pc, 1, pc.len());
        let br = slice_chars(&bc, 1, bc.len());
        assert(pr@ =~= pc@.drop_first());
        assert(br@ =~= bc@.drop_first());
        strip_body_exec(pr, br)
    } else {
        strip_body_exec(pc, bc)
    };
    match out {
        Some(v) => Some(from_chars(&v)),
        None => None,
    }
}

/// Where the artifact of a run lies: `<root>/docs/workflows/<run_id>/<artifact>`, joined as
/// `PathBuf::join` joins (an absolute run id replaces what comes before it).
pub open spec fn artifact_path(root: Seq<char>, run_id: Seq<char>, artifact: Seq<char>) -> Seq<char> {
    path_join(path_join(path_join(path_join(root, "docs"@), "workflows"@), run_id), artifact)
}

pub fn artifact_path_exec(root: &str, run_id: &str, artifact: &str) -> (r: String)
    ensures
        r@ == artifact_path(root@, run_id@, artifact@),
{
    let d = join_path(root, "docs");
    let w = join_path(d.as_str(), "workflows");
    let r = join_path(w.as_str(), run_id);
    join_path(r.as_str(), artifact)
}

impl Config {
    pub open spec fn spec_state_path(&self) -> Seq<char> {
        path_join(path_join(self.root@, ".cairnkit"@), "STATE.yaml"@)
    }

    pub open spec fn spec_run_dir(&self, run_id: Seq<char>) -> Seq<char> {
        path_join(path_join(path_join(self.root@, "docs"@), "workflows"@), run_id)
    }

    /// `<root>/.cairnkit/STATE.yaml`.
    pub fn state_path(&self) -> (r: String)
        ensures
            r@ == self.spec_state_path(),
    {
        let d = join_path(self.root.as_str(), ".cairnkit");
        join_path(d.as_str(), "STATE.yaml")
    }

    /// `<root>/docs/workflows/<run_id>`.
    pub fn run_dir(&self, run_id: &str) -> (r: String)
        ensures
            r@ == self.spec_run_dir(run_id@),
    {
        let d = join_path(self.root.as_str(), "docs");
        let w = join_path(d.as_str(), "workflows");
        join_path(w.as_str(), run_id)
    }
}

/// `~/rest` with the home directory put in front when `home` is known; any other path as is.
pub open spec fn expand_user_spec(p: Seq<char>, home: Option<Seq<char>>) -> Seq<char> {
    if "~/"@.is_prefix_of(p) && home is Some {
        path_join(home->0, p.skip(2))
    } else {
        p
    }
}

fn expand_user(p: String, home: &Option<String>) -> (r: String)
    ensures
        r@ == expand_user_spec(p@, opt_string_view(*home)),
{
    let pc = to_chars(p.as_str());
    let tilde = to_chars("~/");
    proof {
        reveal_strlit("~/");
    }
    if starts_with(&pc, &tilde) {
        if let Some(h) = home {
            let rest = slice_chars(&pc, 2, pc.len());
            let rs = from_chars(&rest);
            assert(rest@ =~= p@.skip(2));
            return join_path(h.as_str(), rs.as_str());
        }
    }
    p
}

/// The view of an optional `String`.
pub open spec fn opt_string_view(o: Option<String>) -> Option<Seq<char>> {
    match o {
        Some(s) => Some(s@),
        None => None,
    }
}

/// The message when `cairnkit.yaml` is absent from `root`.
pub open spec fn config_missing_message(root: Seq<char>) -> Seq<char> {
    "cairnkit.yaml not found in "@ + root + ". Run /team-init to initialise the project."@
}

/// Builds the configuration of the project at `root` from what reading `cairnkit.yaml` gave.
///
/// `home` is the home directory used to expand a `~/` knowledge repo path. An absent file and
/// an undecodable one are usage errors; a project with no repos gets one repo named after the
/// project at `.`; `knowledge_root` defaults to `docs/knowledge`.
pub fn load_config(root: &str, loaded: Loaded<RawConfig>, home: Option<String>) -> (r: Result<
    Config,
    CairnError,
>)
    ensures
        match loaded {
            Loaded::Missing => r matches Err(CairnError::Usage(m)) && m@ == config_missing_message(
                root@,
            ),
            Loaded::Unreadable(e) => r matches Err(CairnError::Usage(m)) && m@ == e@,
            Loaded::Malformed(e) => r matches Err(CairnError::Usage(m)) && m@
                == "cairnkit.yaml is invalid: "@ + e@,
            Loaded::Parsed(raw) => r matches Ok(c) && {
                &&& c.project == raw.project
                &&& c.domain == raw.domain
                &&& c.root@ == root@
                &&& (raw.repos.len() == 0 ==> c.repos@.len() == 1 && c.repos@[0].name
                    == raw.project && c.repos@[0].path@ == "."@)
                &&& (raw.repos.len() > 0 ==> c.repos@ == raw.repos@)
                &&& c.knowledge_root@ == match raw.knowledge_root {
                    Some(kr) => path_join(root@, kr@),
                    None => path_join(path_join(root@, "docs"@), "knowledge"@),
                }
                &&& c.knowledge_repo_url == match raw.knowledge_repo {
                    Some(k) => k.url,
                    None => None,
                }
                &&& opt_string_view(c.knowledge_repo_local) == match raw.knowledge_repo {
                    Some(k) => match k.local {
                        Some(l) => Some(expand_user_spec(l@, opt_string_view(home))),
                        None => None,
                    },
                    None => None,
                }
                &&& c.notify_webhook_env == match raw.notify {
                    Some(n) => n.feishu_webhook_env,
                    None => None,
                }
            },
        },
{
    match loaded {
        Loaded::Missing => Err(usage(concat3("cairnkit.yaml not found in ", root, ". Run /team-init to initialise the project."))),
        Loaded::Unreadable(e) => Err(usage(e)),
        Loaded::Malformed(e) => Err(usage(concat("cairnkit.yaml is invalid: ", e.as_str()))),
        Loaded::Parsed(raw) => {
            let mut repos = raw.repos;
            if repos.len() == 0 {
                repos.push(Repo { name: raw.project.clone(), path: string_of(".") });
            }
            let knowledge_root = match raw.knowledge_root {
                Some(kr) => join_path(root, kr.as_str()),
                None => {
                    let d = join_path(root, "docs");
                    join_path(d.as_str(), "knowledge")
                },
            };
            let (url, local) = match raw.knowledge_repo {
                Some(k) => {
                    let local = match k.local {
                        Some(l) => Some(expand_user(l, &home)),
                        None => None,
                    };
                    (k.url, local)
                },
                None => (None, None),
            };
            let notify = match raw.notify {
                Some(n) => n.feishu_webhook_env,
                None => None,
            };
            Ok(
                Config {
                    project: raw.project,
                    domain: raw.domain,
                    repos,
                    root: string_of(root),
                    knowledge_root,
                    knowledge_repo_url: url,
                    knowledge_repo_local: local,
                    notify_webhook_env: notify,
                },
            )
        },
    }
}

/// STATE.yaml: the whole state of a run. The field order is the on-disk order.
#[derive(Debug, Clone)]
pub struct State {
    pub run_id: String,
    pub stage: String,
    pub path_mode: String,
    pub history: Vec<String>,
    pub artifacts: StrMap<String>,
    pub retries: StrMap<u32>,
    pub pending_clarify: Option<String>,
    pub blocked_reason: Option<String>,
    pub updated_at: String,
}

/// A fresh run: stage INIT on the full route, with nothing recorded yet.
pub open spec fn is_fresh(s: State, run_id: Seq<char>) -> bool {
    &&& s.run_id@ == run_id
    &&& s.stage@ == "INIT"@
    &&& s.path_mode@ == "full"@
    &&& s.history@.len() == 0
    &&& s.artifacts@ == Map::<Seq<char>, String>::empty()
    &&& s.retries@ == Map::<Seq<char>, u32>::empty()
    &&& s.pending_clarify is None
    &&& s.blocked_reason is None
}

/// The STATE of a new run `run_id`, stamped `updated_at` (the current local time as
/// `%Y-%m-%dT%H:%M:%S`, read by the caller). The caller saves it.
pub fn init_state(run_id: &str, updated_at: &str) -> (r: State)
    ensures
        is_fresh(r, run_id@),
        r.updated_at@ == updated_at@,
{
    State {
        run_id: string_of(run_id),
        stage: string_of("INIT"),
        path_mode: string_of("full"),
        history: Vec::new(),
        artifacts: StrMap::new(),
        retries: StrMap::new(),
        pending_clarify: None,
        blocked_reason: None,
        updated_at: string_of(updated_at),
    }
}

/// The message for a STATE file that could not be decoded.
pub open spec fn corrupt_message(e: Seq<char>) -> Seq<char> {
    "STATE.yaml is corrupt: "@ + e
        + ". Expected fields: run_id, stage, path_mode, history, artifacts, retries, pending_clarify, blocked_reason, updated_at."@
}

/// Why what was read from STATE.yaml at `state_path` is no usable state, if it is not:
/// the message of the corrupt-STATE error.
pub open spec fn load_error(state_path: Seq<char>, loaded: Loaded<State>) -> Option<Seq<char>> {
    match loaded {
        Loaded::Missing => Some(
            "STATE.yaml not found at "@ + state_path + ". Start a run with /flow-run."@,
        ),
        Loaded::Unreadable(e) => Some("STATE.yaml unreadable: "@ + e@),
        Loaded::Malformed(e) => Some(corrupt_message(e@)),
        Loaded::Parsed(s) => {
            if parse_stage(s.stage@) is None {
                Some("STATE.yaml has an unknown stage "@ + debug_text(s.stage@) + "."@)
            } else if parse_mode(s.path_mode@) is None {
                Some("STATE.yaml has an unknown path_mode "@ + debug_text(s.path_mode@) + "."@)
            } else {
                None
            }
        },
    }
}

/// Checks what reading STATE.yaml at `state_path` gave. Every failure is a corrupt-STATE
/// error: the file is absent or unreadable, it does not decode, or it names an unknown stage
/// or path mode.
pub fn load_state(state_path: &str, loaded: Loaded<State>) -> (r: Result<State, CairnError>)
    ensures
        match load_error(state_path@, loaded) {
            Some(m) => r matches Err(CairnError::StateCorrupt(e)) && e@ == m,
            None => r == Ok::<State, CairnError>(loaded->Parsed_0),
        },
{
    match loaded {
        Loaded::Missing => Err(
            corrupt(concat3("STATE.yaml not found at ", state_path, ". Start a run with /flow-run.")),
        ),
        Loaded::Unreadable(e) => Err(corrupt(concat("STATE.yaml unreadable: ", e.as_str()))),
        Loaded::Malformed(e) => Err(
            corrupt(
                concat3(
                    "STATE.yaml is corrupt: ",
                    e.as_str(),
                    ". Expected fields: run_id, stage, path_mode, history, artifacts, retries, pending_clarify, blocked_reason, updated_at.",
                ),
            ),
        ),
        Loaded::Parsed(s) => {
            if !is_valid_stage(s.stage.as_str()) {
                let d = debug_str(s.stage.as_str());
                return Err(corrupt(concat3("STATE.yaml has an unknown stage ", d.as_str(), ".")));
            }
            if !is_valid_path_mode(s.path_mode.as_str()) {
                let d = debug_str(s.path_mode.as_str());
                return Err(
                    corrupt(concat3("STATE.yaml has an unknown path_mode ", d.as_str(), ".")),
                );
            }
            Ok(s)
        },
    }
}

/// The local clone of the shared knowledge repository, which commands on it need.
pub fn kbrepo_path(c: &Config) -> (r: Result<String, CairnError>)
    ensures
        match c.knowledge_repo_local {
            Some(p) => r matches Ok(x) && x@ == p@,
            None => r matches Err(CairnError::Usage(m)) && m@
                == "no knowledge_repo.local configured in cairnkit.yaml — set it to a local clone of the shared knowledge repo."@,
        },
{
    match &c.knowledge_repo_local {
        Some(p) => Ok(p.clone()),
        None => Err(
            usage(
                string_of(
                    "no knowledge_repo.local configured in cairnkit.yaml — set it to a local clone of the shared knowledge repo.",
                ),
            ),
        ),
    }
}

} // verus!
