//! Effects passed in rather than reached for: a reader that threads a
//! configuration through a computation, and services handed to the logic
//! as trait implementations.
use vstd::prelude::*;
use vstd::string::*;
use crate::text::{nat_text, push_char, push_u64};

verus! {

// ─── Reader ────────────────────────────────────────────────────────────

/// A computation that reads an environment.
pub struct Reader<F> {
    run: F,
}

impl<F> Reader<F> {
    /// The function this reader runs.
    pub closed spec fn runs(self) -> F {
        self.run
    }

    pub fn new<Env, A>(f: F) -> (r: Self)
        where
            F: Fn(&Env) -> A,
        ensures
            r.runs() == f,
    {
        Reader { run: f }
    }

    /// Runs the computation in `env`; a reader can be run any number of times.
    pub fn run_reader<Env, A>(&self, env: &Env) -> (a: A)
        where
            F: Fn(&Env) -> A,
        requires
            self.runs().requires((env,)),
        ensures
            self.runs().ensures((env,), a),
    {
        (self.run)(env)
    }

    /// The reader whose value is `f` of this one's.
    pub fn map<Env, A, B, G>(self, f: G) -> (r: Reader<impl Fn(&Env) -> B>)
        where
            F: Fn(&Env) -> A,
            G: Fn(A) -> B,
        ensures
            forall|env: &Env| self.runs().requires((env,))
                && (forall|a: A| #[trigger] self.runs().ensures((env,), a) ==> f.requires((a,)))
                ==> #[trigger] r.runs().requires((env,)),
            forall|env: &Env, b: B| #[trigger] r.runs().ensures((env,), b)
                ==> exists|a: A| #[trigger] self.runs().ensures((env,), a) && f.ensures((a,), b),
    {
        let run = self.run;
        let r = Reader::new(move |env: &Env| -> (b: B)
            requires
                run.requires((env,)),
                forall|a: A| #[trigger] run.ensures((env,), a) ==> f.requires((a,)),
            ensures
                exists|a: A| #[trigger] run.ensures((env,), a) && f.ensures((a,), b),
        {
            let a = run(env);
            f(a)
        });
        assert forall|env: &Env, b: B| #[trigger] r.runs().ensures((env,), b)
            implies exists|a: A| #[trigger] self.runs().ensures((env,), a) && f.ensures((a,), b) by {
            assert(r.runs().ensures((env,), b));
            assert(exists|a: A| #[trigger] run.ensures((env,), a) && f.ensures((a,), b));
            assert(run == self.runs());
        }
        r
    }

    /// The reader that runs this one, hands its value to `f`, and runs the
    /// reader `f` returns in the same environment.
    pub fn and_then<Env, A, B, G, H>(self, f: H) -> (r: Reader<impl Fn(&Env) -> B>)
        where
            F: Fn(&Env) -> A,
            G: Fn(&Env) -> B,
            H: Fn(A) -> Reader<G>,
        ensures
            forall|env: &Env| self.runs().requires((env,))
                && (forall|a: A| #[trigger] self.runs().ensures((env,), a) ==> f.requires((a,)))
                && (forall|a: A, next: Reader<G>| #[trigger] self.runs().ensures((env,), a) && #[trigger] f.ensures((a,), next)
                    ==> next.runs().requires((env,)))
                ==> #[trigger] r.runs().requires((env,)),
            forall|env: &Env, b: B| #[trigger] r.runs().ensures((env,), b)
                ==> exists|a: A, next: Reader<G>| #[trigger] self.runs().ensures((env,), a)
                    && #[trigger] f.ensures((a,), next) && next.runs().ensures((env,), b),
    {
        let run = self.run;
        let r = Reader::new(move |env: &Env| -> (b: B)
            requires
                run.requires((env,)),
                forall|a: A| #[trigger] run.ensures((env,), a) ==> f.requires((a,)),
                forall|a: A, next: Reader<G>| #[trigger] run.ensures((env,), a) && #[trigger] f.ensures((a,), next)
                    ==> next.runs().requires((env,)),
            ensures
                exists|a: A, next: Reader<G>| #[trigger] run.ensures((env,), a)
                    && #[trigger] f.ensures((a,), next) && next.runs().ensures((env,), b),
        {
            let a = run(env);
            let ghost a0 = a;
            let next = f(a);
            assert(f.ensures((a0,), next));
            next.run_reader(env)
        });
        assert forall|env: &Env, b: B| #[trigger] r.runs().ensures((env,), b)
            implies exists|a: A, next: Reader<G>| #[trigger] self.runs().ensures((env,), a)
                && #[trigger] f.ensures((a,), next) && next.runs().ensures((env,), b) by {
            assert(r.runs().ensures((env,), b));
            assert(exists|a: A, next: Reader<G>| #[trigger] run.ensures((env,), a)
                && #[trigger] f.ensures((a,), next) && next.runs().ensures((env,), b));
            assert(run == self.runs());
        }
        r
    }

    /// The reader whose value pairs this one's with `other`'s, both run in the
    /// same environment.
    pub fn zip<Env, A, B, G>(self, other: Reader<G>) -> (r: Reader<impl Fn(&Env) -> (A, B)>)
        where
            F: Fn(&Env) -> A,
            G: Fn(&Env) -> B,
        ensures
            forall|env: &Env| self.runs().requires((env,)) && other.runs().requires((env,))
                ==> #[trigger] r.runs().requires((env,)),
            forall|env: &Env, p: (A, B)| #[trigger] r.runs().ensures((env,), p)
                ==> self.runs().ensures((env,), p.0) && other.runs().ensures((env,), p.1),
    {
        let run = self.run;
        Reader::new(move |env: &Env| -> (p: (A, B))
            requires
                run.requires((env,)),
                other.runs().requires((env,)),
            ensures
                run.ensures((env,), p.0) && other.runs().ensures((env,), p.1),
        {
            let a = run(env);
            let b = other.run_reader(env);
            (a, b)
        })
    }
}

// ─── A configuration read by the readers ───────────────────────────────

#[derive(Debug, Clone)]
pub struct AppConfig {
    pub db_url: String,
    pub log_level: String,
    pub app_name: String,
}

/// `"[<app_name>] connected to <db_url>"`.
pub open spec fn connect_text(cfg: AppConfig) -> Seq<char> {
    seq!['['] + cfg.app_name@ + "] connected to "@ + cfg.db_url@
}

/// `"[<db_url>] <sql>"`.
pub open spec fn query_text(cfg: AppConfig, sql: Seq<char>) -> Seq<char> {
    seq!['['] + cfg.db_url@ + seq![']', ' '] + sql
}

/// The query for one user: `"SELECT * FROM users WHERE id = <id>"`.
pub open spec fn user_sql(id: u32) -> Seq<char> {
    "SELECT * FROM users WHERE id = "@ + nat_text(id as nat)
}

/// `"<connection> → <query result>"` for one user.
pub open spec fn user_text(cfg: AppConfig, id: u32) -> Seq<char> {
    connect_text(cfg) + " → "@ + query_text(cfg, user_sql(id))
}

/// Reads the database URL.
pub fn get_db_url() -> (r: Reader<impl Fn(&AppConfig) -> String>)
    ensures
        forall|cfg: &AppConfig| #[trigger] r.runs().requires((cfg,)),
        forall|cfg: &AppConfig, s: String| #[trigger] r.runs().ensures((cfg,), s) ==> s@ == cfg.db_url@,
{
    Reader::new(|cfg: &AppConfig| -> (s: String)
        ensures
            s@ == cfg.db_url@,
    { cfg.db_url.clone() })
}

fn connect_line(cfg: &AppConfig) -> (s: String)
    ensures
        s@ == connect_text(*cfg),
{
    let mut s = String::new();
    push_char(&mut s, '[');
    s.append(cfg.app_name.as_str());
    s.append("] connected to ");
    s.append(cfg.db_url.as_str());
    assert(s@ =~= connect_text(*cfg));
    s
}

fn query_line(cfg: &AppConfig, sql: &str) -> (s: String)
    ensures
        s@ == query_text(*cfg, sql@),
{
    let mut s = String::new();
    push_char(&mut s, '[');
    s.append(cfg.db_url.as_str());
    push_char(&mut s, ']');
    push_char(&mut s, ' ');
    s.append(sql);
    assert(s@ =~= query_text(*cfg, sql@));
    s
}

/// The connection message for the configured application and database.
pub fn connect() -> (r: Reader<impl Fn(&AppConfig) -> String>)
    ensures
        forall|cfg: &AppConfig| #[trigger] r.runs().requires((cfg,)),
        forall|cfg: &AppConfig, s: String| #[trigger] r.runs().ensures((cfg,), s) ==> s@ == connect_text(*cfg),
{
    Reader::new(|cfg: &AppConfig| -> (s: String)
        ensures
            s@ == connect_text(*cfg),
    { connect_line(cfg) })
}

/// The result line of running `sql` against the configured database.
pub fn query(sql: &str) -> (r: Reader<impl Fn(&AppConfig) -> String>)
    ensures
        forall|cfg: &AppConfig| #[trigger] r.runs().requires((cfg,)),
        forall|cfg: &AppConfig, s: String| #[trigger] r.runs().ensures((cfg,), s) ==> s@ == query_text(*cfg, sql@),
{
    let sql = String::from_str(sql);
    Reader::new(move |cfg: &AppConfig| -> (s: String)
        ensures
            s@ == query_text(*cfg, sql@),
    { query_line(cfg, sql.as_str()) })
}

/// Connects, queries the user `user_id`, and joins the two lines.
pub fn process_user(user_id: u32) -> (r: Reader<impl Fn(&AppConfig) -> String>)
    ensures
        forall|cfg: &AppConfig| #[trigger] r.runs().requires((cfg,)),
        forall|cfg: &AppConfig, s: String| #[trigger] r.runs().ensures((cfg,), s) ==> s@ == user_text(*cfg, user_id),
{
    let mut sql = String::from_str("SELECT * FROM users WHERE id = ");
    push_u64(&mut sql, user_id as u64);
    proof {
        assert(sql@ =~= user_sql(user_id));
    }
    Reader::new(move |cfg: &AppConfig| -> (s: String)
        ensures
            s@ == user_text(*cfg, user_id),
    {
        let conn = connect_line(cfg);
        let result = query_line(cfg, sql.as_str());
        let mut s = conn;
        s.append(" → ");
        s.append(result.as_str());
        assert(s@ =~= user_text(*cfg, user_id));
        s
    })
}

// ─── Services passed in as traits ──────────────────────────────────────

/// Somewhere to send log messages.
pub trait Logger {
    fn log(&self, msg: &str);
}

/// A store of values by id.
pub trait Repository {
    fn find(&self, id: u32) -> Option<String>;

    fn save(&self, id: u32, value: &str);
}

/// `"processing id=<id>"`.
pub open spec fn processing_text(id: u32) -> Seq<char> {
    "processing id="@ + nat_text(id as nat)
}

/// `"saved: <value>"`.
pub open spec fn saved_text(value: Seq<char>) -> Seq<char> {
    "saved: "@ + value
}

/// The message logged before an update of `id`.
pub fn processing_message(id: u32) -> (s: String)
    ensures
        s@ == processing_text(id),
{
    let mut s = String::from_str("processing id=");
    push_u64(&mut s, id as u64);
    assert(s@ =~= processing_text(id));
    s
}

/// The message logged after `value` was saved.
pub fn saved_message(value: &str) -> (s: String)
    ensures
        s@ == saved_text(value@),
{
    let mut s = String::from_str("saved: ");
    s.append(value);
    s
}

/// Logs [`processing_text`], reads the old value of `id`, saves `new_value`
/// under `id`, logs [`saved_text`], and returns the old value as the
/// repository's `find` reported it. The contract names each call and what it
/// was handed; the order of the calls is not stated.
pub fn process_with_traits<L: Logger, R: Repository>(logger: &L, repo: &R, id: u32, new_value: &str) -> (r: Option<String>)
    ensures
        call_ensures(R::find, (repo, id), r),
        call_ensures(R::save, (repo, id, new_value), ()),
        exists|m: &str| m@ == processing_text(id) && call_ensures(L::log, (logger, m), ()),
        exists|m: &str| m@ == saved_text(new_value@) && call_ensures(L::log, (logger, m), ()),
{
    let before = processing_message(id);
    logger.log(before.as_str());
    let old = repo.find(id);
    repo.save(id, new_value);
    let after = saved_message(new_value);
    logger.log(after.as_str());
    old
}

/// A logger that drops every message.
pub struct SilentLogger;

impl Logger for SilentLogger {
    fn log(&self, msg: &str) {
    }
}

} // verus!
