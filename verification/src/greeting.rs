//! Time-of-day greeting selection. Each template is a prefix and a suffix
//! around the agent's name; rendering inserts the name between them.

use vstd::prelude::*;
use vstd::string::StrSliceExecFns;

verus! {

/// Templates usable at any hour, as (prefix, suffix) pairs around the name.
pub open spec fn anytime_templates() -> Seq<(Seq<char>, Seq<char>)> {
    seq![
        ("Hey, it's "@, ""@),
        ("Hi there, "@, " here"@),
        ("Hello, this is "@, ""@),
        (""@, " here, what's up?"@),
    ]
}

/// Templates for the hour's period of day.
pub open spec fn period_templates(hour: u32) -> Seq<(Seq<char>, Seq<char>)> {
    if 5 <= hour && hour <= 11 {
        seq![("Good morning, "@, " here"@), ("Morning! It's "@, ""@)]
    } else if 12 <= hour && hour <= 16 {
        seq![("Good afternoon, it's "@, ""@), ("Hey, good afternoon, "@, " here"@)]
    } else if 17 <= hour && hour <= 20 {
        seq![("Good evening, this is "@, ""@), ("Evening! "@, " here"@)]
    } else {
        seq![("Hey, it's late, but "@, "'s here"@), (""@, " here, burning the midnight oil?"@)]
    }
}

/// The pool a greeting is drawn from: anytime plus time-specific templates.
pub open spec fn pool_spec(hour: u32) -> Seq<(Seq<char>, Seq<char>)> {
    anytime_templates() + period_templates(hour)
}

/// Relies on rand's thread_rng and Rng::gen_range: some index below `len`;
/// nothing is assumed about which one.
#[verifier::external_body]
fn pick_index(len: usize) -> (r: usize)
    requires
        len > 0,
    ensures
        r < len,
{
    rand::Rng::gen_range(&mut rand::thread_rng(), 0..len)
}

/// Relies on chrono's Local::now and Timelike::hour: the local hour number,
/// documented to lie in 0..24; which one depends on the clock.
#[verifier::external_body]
fn current_hour() -> (r: u32)
    ensures
        r < 24,
{
    chrono::Timelike::hour(&chrono::Local::now())
}

/// Prefixes and suffixes of the greeting pool for one hour.
fn greeting_pool(hour: u32) -> (r: (Vec<String>, Vec<String>))
    ensures
        r.0@.len() == pool_spec(hour).len(),
        r.1@.len() == pool_spec(hour).len(),
        forall|i: int| 0 <= i < pool_spec(hour).len()
            ==> (#[trigger] r.0@[i])@ == pool_spec(hour)[i].0
                && r.1@[i]@ == pool_spec(hour)[i].1,
{
    let mut pre: Vec<String> = Vec::new();
    let mut suf: Vec<String> = Vec::new();
    pre.push("Hey, it's ".to_owned());
    suf.push("".to_owned());
    pre.push("Hi there, ".to_owned());
    suf.push(" here".to_owned());
    pre.push("Hello, this is ".to_owned());
    suf.push("".to_owned());
    pre.push("".to_owned());
    suf.push(" here, what's up?".to_owned());
    if 5 <= hour && hour <= 11 {
        pre.push("Good morning, ".to_owned());
        suf.push(" here".to_owned());
        pre.push("Morning! It's ".to_owned());
        suf.push("".to_owned());
    } else if 12 <= hour && hour <= 16 {
        pre.push("Good afternoon, it's ".to_owned());
        suf.push("".to_owned());
        pre.push("Hey, good afternoon, ".to_owned());
        suf.push(" here".to_owned());
    } else if 17 <= hour && hour <= 20 {
        pre.push("Good evening, this is ".to_owned());
        suf.push("".to_owned());
        pre.push("Evening! ".to_owned());
        suf.push(" here".to_owned());
    } else {
        pre.push("Hey, it's late, but ".to_owned());
        suf.push("'s here".to_owned());
        pre.push("".to_owned());
        suf.push(" here, burning the midnight oil?".to_owned());
    }
    (pre, suf)
}

/// Greeting for a given hour: one template of the hour's pool, drawn at
/// random, with the name inserted between its prefix and suffix.
pub fn select_greeting_for_hour(name: &str, hour: u32) -> (r: String)
    ensures
        exists|i: int| 0 <= i < pool_spec(hour).len()
            && r@ == (#[trigger] pool_spec(hour)[i]).0 + name@ + pool_spec(hour)[i].1,
{
    let (pre, suf) = greeting_pool(hour);
    let i = pick_index(pre.len());
    let mut g: String = pre[i].clone();
    g.append(name);
    g.append(suf[i].as_str());
    proof {
        assert(g@ == pool_spec(hour)[i as int].0 + name@ + pool_spec(hour)[i as int].1);
    }
    g
}

/// Greeting for the current local time of day.
pub fn select_greeting(name: &str) -> (r: String)
    ensures
        exists|hour: u32, i: int| hour < 24 && 0 <= i < pool_spec(hour).len()
            && r@ == (#[trigger] pool_spec(hour)[i]).0 + name@ + pool_spec(hour)[i].1,
{
    let hour = current_hour();
    select_greeting_for_hour(name, hour)
}

/// Rendered templates of the hour's time-specific pool, with the literal
/// placeholder still in place.
pub fn time_pool(hour: u32) -> (r: Vec<String>)
    ensures
        r@.len() == period_templates(hour).len(),
        forall|i: int| 0 <= i < r@.len()
            ==> (#[trigger] r@[i])@ == period_templates(hour)[i].0 + "{name}"@
                + period_templates(hour)[i].1,
{
    let (pre, suf) = period_pool(hour);
    let mut out: Vec<String> = Vec::new();
    let mut i: usize = 0;
    while i < pre.len()
        invariant
            i <= pre@.len(),
            pre@.len() == period_templates(hour).len(),
            suf@.len() == period_templates(hour).len(),
            forall|j: int| 0 <= j < pre@.len()
                ==> (#[trigger] pre@[j])@ == period_templates(hour)[j].0
                    && suf@[j]@ == period_templates(hour)[j].1,
            out@.len() == i,
            forall|j: int| 0 <= j < i
                ==> (#[trigger] out@[j])@ == period_templates(hour)[j].0 + "{name}"@
                    + period_templates(hour)[j].1,
        decreases pre@.len() - i,
    {
        let mut g: String = pre[i].clone();
        g.append("{name}");
        g.append(suf[i].as_str());
        out.push(g);
        i += 1;
    }
    out
}

/// Prefixes and suffixes of the hour's time-specific templates.
fn period_pool(hour: u32) -> (r: (Vec<String>, Vec<String>))
    ensures
        r.0@.len() == period_templates(hour).len(),
        r.1@.len() == period_templates(hour).len(),
        forall|i: int| 0 <= i < period_templates(hour).len()
            ==> (#[trigger] r.0@[i])@ == period_templates(hour)[i].0
                && r.1@[i]@ == period_templates(hour)[i].1,
{
    let mut pre: Vec<String> = Vec::new();
    let mut suf: Vec<String> = Vec::new();
    if 5 <= hour && hour <= 11 {
        pre.push("Good morning, ".to_owned());
        suf.push(" here".to_owned());
        pre.push("Morning! It's ".to_owned());
        suf.push("".to_owned());
    } else if 12 <= hour && hour <= 16 {
        pre.push("Good afternoon, it's ".to_owned());
        suf.push("".to_owned());
        pre.push("Hey, good afternoon, ".to_owned());
        suf.push(" here".to_owned());
    } else if 17 <= hour && hour <= 20 {
        pre.push("Good evening, this is ".to_owned());
        suf.push("".to_owned());
        pre.push("Evening! ".to_owned());
        suf.push(" here".to_owned());
    } else {
        pre.push("Hey, it's late, but ".to_owned());
        suf.push("'s here".to_owned());
        pre.push("".to_owned());
        suf.push(" here, burning the midnight oil?".to_owned());
    }
    (pre, suf)
}

/// `n` occurs in `h` as a contiguous run.
pub open spec fn contains_seq(h: Seq<char>, n: Seq<char>) -> bool {
    exists|k: int| 0 <= k && k + n.len() <= h.len() && #[trigger] h.subrange(k, k + n.len() as int) == n
}

proof fn lemma_no_brace_no_placeholder(g: Seq<char>)
    requires
        forall|j: int| 0 <= j < g.len() ==> (#[trigger] g[j]) != '{',
    ensures
        !contains_seq(g, "{name}"@),
{
    reveal_strlit("{name}");
    if contains_seq(g, "{name}"@) {
        let k = choose|k: int| 0 <= k && k + "{name}"@.len() <= g.len()
            && #[trigger] g.subrange(k, k + "{name}"@.len() as int) == "{name}"@;
        assert(g.subrange(k, k + 6)[0] == g[k]);
        assert(g[k] == '{');
    }
}

/// Every greeting the pool can produce is non-empty, contains the agent's
/// name, and carries no leftover `{name}` placeholder, for any name free
/// of the `{` character.
#[verifier::rlimit(100)]
#[verifier::spinoff_prover]
pub proof fn lemma_greeting_well_formed(hour: u32, i: int, name: Seq<char>)
    requires
        0 <= i < pool_spec(hour).len(),
        forall|j: int| 0 <= j < name.len() ==> (#[trigger] name[j]) != '{',
    ensures
        ({
            let g = pool_spec(hour)[i].0 + name + pool_spec(hour)[i].1;
            &&& g.len() > 0
            &&& contains_seq(g, name)
            &&& !contains_seq(g, "{name}"@)
        }),
{
    let pre = pool_spec(hour)[i].0;
    let suf = pool_spec(hour)[i].1;
    let g = pre + name + suf;
    lemma_pool_templates_plain(hour, i);
    // the name sits right after the prefix
    assert(g.subrange(pre.len() as int, (pre.len() + name.len()) as int) =~= name);
    assert(contains_seq(g, name));
    assert forall|j: int| 0 <= j < g.len() implies (#[trigger] g[j]) != '{' by {
        if j < pre.len() {
            assert(g[j] == pre[j]);
        } else if j < pre.len() + name.len() {
            assert(g[j] == name[j - pre.len()]);
        } else {
            assert(g[j] == suf[j - pre.len() - name.len()]);
        }
    }
    lemma_no_brace_no_placeholder(g);
}

/// No template prefix or suffix is empty on both sides or contains `{`.
proof fn lemma_pool_templates_plain(hour: u32, i: int)
    requires
        0 <= i < pool_spec(hour).len(),
    ensures
        pool_spec(hour)[i].0.len() + pool_spec(hour)[i].1.len() > 0,
        forall|j: int| 0 <= j < pool_spec(hour)[i].0.len()
            ==> (#[trigger] pool_spec(hour)[i].0[j]) != '{',
        forall|j: int| 0 <= j < pool_spec(hour)[i].1.len()
            ==> (#[trigger] pool_spec(hour)[i].1[j]) != '{',
{
    reveal_strlit("Hey, it's ");
    reveal_strlit("");
    reveal_strlit("Hi there, ");
    reveal_strlit(" here");
    reveal_strlit("Hello, this is ");
    reveal_strlit(" here, what's up?");
    reveal_strlit("Good morning, ");
    reveal_strlit("Morning! It's ");
    reveal_strlit("Good afternoon, it's ");
    reveal_strlit("Hey, good afternoon, ");
    reveal_strlit("Good evening, this is ");
    reveal_strlit("Evening! ");
    reveal_strlit("Hey, it's late, but ");
    reveal_strlit("'s here");
    reveal_strlit(" here, burning the midnight oil?");
}

} // verus!
