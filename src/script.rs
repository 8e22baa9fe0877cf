//! The routing script: the hot-reloadable store that holds its source, and
//! the harness that turns the source and one job into the program a worker
//! runs in its sandbox.
use vstd::prelude::*;

verus! {

/// Start of the harness that follows the routing script. It calls the
/// script's `handle(req)` and turns an uncaught exception into a logged stack
/// trace and a decision that blocks the connection.
pub const HARNESS_OPEN: &'static str = "\n\nasync function handler(req) {\n    try {\n        return await handle(req);\n    } catch (e) {\n        console.error(\"| ERROR | Worker ";

pub const HARNESS_JOB: &'static str = " | Job ";

pub const HARNESS_CATCH: &'static str = " |\");\n        console.error(e.stack);\n        return {\n            block_connection: true,\n        };\n    }\n}\n\nhandler(";

pub const HARNESS_CALLBACK: &'static str = ").then(async (res) => {\n    await Deno.core.ops.op_callback(";

pub const HARNESS_CLOSE: &'static str = ", res);\n});\n";

/// The decimal digit `d`.
pub open spec fn digit_char(d: nat) -> char {
    if d == 0 {
        '0'
    } else if d == 1 {
        '1'
    } else if d == 2 {
        '2'
    } else if d == 3 {
        '3'
    } else if d == 4 {
        '4'
    } else if d == 5 {
        '5'
    } else if d == 6 {
        '6'
    } else if d == 7 {
        '7'
    } else if d == 8 {
        '8'
    } else {
        '9'
    }
}

/// `n` written in decimal, without leading zeros.
pub open spec fn decimal(n: nat) -> Seq<char>
    decreases n,
{
    if n < 10 {
        seq![digit_char(n)]
    } else {
        decimal(n / 10).push(digit_char(n % 10))
    }
}

/// The program a worker runs for one job: the routing script, then the
/// harness that calls it on the request and hands the decision back under
/// the job's id.
pub open spec fn harness_text(script: Seq<char>, worker: nat, job_id: nat, request: Seq<char>) -> Seq<
    char,
> {
    script + HARNESS_OPEN@ + decimal(worker) + HARNESS_JOB@ + decimal(job_id) + HARNESS_CATCH@
        + request + HARNESS_CALLBACK@ + decimal(job_id) + HARNESS_CLOSE@
}

fn digit_str(d: u64) -> (r: &'static str)
    requires
        d < 10,
    ensures
        r@ == seq![digit_char(d as nat)],
{
    proof {
        reveal_strlit("0");
        reveal_strlit("1");
        reveal_strlit("2");
        reveal_strlit("3");
        reveal_strlit("4");
        reveal_strlit("5");
        reveal_strlit("6");
        reveal_strlit("7");
        reveal_strlit("8");
        reveal_strlit("9");
    }
    if d == 0 {
        "0"
    } else if d == 1 {
        "1"
    } else if d == 2 {
        "2"
    } else if d == 3 {
        "3"
    } else if d == 4 {
        "4"
    } else if d == 5 {
        "5"
    } else if d == 6 {
        "6"
    } else if d == 7 {
        "7"
    } else if d == 8 {
        "8"
    } else {
        "9"
    }
}

/// Writes `n` in decimal.
pub fn decimal_string(n: u64) -> (r: String)
    ensures
        r@ == decimal(n as nat),
    decreases n,
{
    if n < 10 {
        String::from_str(digit_str(n))
    } else {
        let mut s = decimal_string(n / 10);
        s.append(digit_str(n % 10));
        s
    }
}

/// Composes the program for job `job_id` on worker `worker`: the routing
/// script followed by the harness, which passes `request` (the request as a
/// JSON object) to the script's `handle` and reports the settled decision,
/// or `{block_connection: true}` if the script threw.
pub fn harness_program(script: &str, worker: u64, job_id: u32, request: &str) -> (r: String)
    ensures
        r@ == harness_text(script@, worker as nat, job_id as nat, request@),
{
    let mut out = String::from_str(script);
    out.append(HARNESS_OPEN);
    let w = decimal_string(worker);
    out.append(w.as_str());
    out.append(HARNESS_JOB);
    let j = decimal_string(job_id as u64);
    out.append(j.as_str());
    out.append(HARNESS_CATCH);
    out.append(request);
    out.append(HARNESS_CALLBACK);
    out.append(j.as_str());
    out.append(HARNESS_CLOSE);
    out
}

/// The current routing-script source. Readers take a snapshot; a reload
/// replaces the whole text at once, so no job ever sees half of an update.
pub struct ScriptStore {
    source: String,
}

impl ScriptStore {
    pub closed spec fn source(&self) -> Seq<char> {
        self.source@
    }

    pub fn new(source: String) -> (r: ScriptStore)
        ensures
            r.source() == source@,
    {
        ScriptStore { source }
    }

    /// A copy of the current source, for one job.
    pub fn snapshot(&self) -> (r: String)
        ensures
            r@ == self.source(),
    {
        self.source.clone()
    }

    /// Takes the latest text read from the script's origin. The source is
    /// replaced when the text differs; returns whether it did.
    pub fn reload(&mut self, latest: String) -> (changed: bool)
        ensures
            changed == (latest@ != old(self).source()),
            final(self).source() == latest@,
    {
        if latest == self.source {
            false
        } else {
            self.source = latest;
            true
        }
    }
}

/// A reload between two jobs changes only the second: a job composed from a
/// snapshot taken before the reload runs the old source, one composed after it
/// runs the new source, and, for the same worker, id and request, the two
/// programs differ exactly when the sources do.
pub proof fn lemma_reload_between_jobs(
    before: ScriptStore,
    after: ScriptStore,
    latest: Seq<char>,
    worker: nat,
    job_id: nat,
    request: Seq<char>,
)
    requires
        after.source() == latest,
    ensures
        harness_text(after.source(), worker, job_id, request) == harness_text(
            latest,
            worker,
            job_id,
            request,
        ),
        harness_text(before.source(), worker, job_id, request) == harness_text(
            latest,
            worker,
            job_id,
            request,
        ) <==> before.source() == latest,
{
    let old_src = before.source();
    let tail = HARNESS_OPEN@ + decimal(worker) + HARNESS_JOB@ + decimal(job_id) + HARNESS_CATCH@
        + request + HARNESS_CALLBACK@ + decimal(job_id) + HARNESS_CLOSE@;
    assert(harness_text(old_src, worker, job_id, request) =~= old_src + tail);
    assert(harness_text(latest, worker, job_id, request) =~= latest + tail);
    if old_src + tail == latest + tail {
        assert(old_src.len() == latest.len());
        assert(old_src =~= (old_src + tail).subrange(0, old_src.len() as int));
        assert(latest =~= (latest + tail).subrange(0, latest.len() as int));
    }
}

} // verus!
