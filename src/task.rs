//! One run of a check-in task: the requests it makes, how it reads the
//! portal's answers, and what it reports, as a state machine that the
//! caller drives with the responses it gets.
use vstd::prelude::*;
use crate::config::{Task, WeComConfig};
use crate::coords::{random_coordinate, jittered, random_between};
use crate::html::{document_text, document_text_of, selected_html_of};
use crate::scan::{active_ids_in_page, distinct_views, holds_id, is_open_id};
use crate::text::{chars_of, contains_chars, has_sub, prefix_of, trimmed, trimmed_prefix};

verus! {

/// The browser identity that every request to the portal carries.
pub const USER_AGENT: &'static str = "Mozilla/5.0 (Linux; Android 12; PAL-AL00 Build/HUAWEIPAL-AL00; wv) AppleWebKit/537.36 (KHTML, like Gecko) Version/4.0 Chrome/116.0.0.0 Mobile Safari/537.36 XWEB/1160065 MMWEBSDK/20231202 MMWEBID/1136 MicroMessenger/8.0.47.2560(0x28002F35) WeChat/arm64 Weixin NetType/4G Language/zh_CN ABI/arm64";

/// The portal's base address.
pub const BASE_URL: &'static str = "http://k8n.cn";

/// The longest failure text that is kept, in characters.
pub const FAILURE_PREFIX: usize = 50;

/// The text a check-in page shows on success, in either language.
pub open spec fn reports_success(t: Seq<char>) -> bool {
    has_sub(t, "成功"@) || has_sub(t, "Success"@)
}

/// The text of an outcome that marks an error.
pub open spec fn reports_error(t: Seq<char>) -> bool {
    has_sub(t, "出错"@) || has_sub(t, "Error"@)
}

/// `s` with every `username=` taken out, left to right.
pub open spec fn strip_user(s: Seq<char>) -> Seq<char>
    decreases s.len(),
{
    if s.len() == 0 {
        s
    } else if s.len() >= 9 && s.take(9) == "username="@ {
        strip_user(s.skip(9))
    } else {
        seq![s[0]] + strip_user(s.skip(1))
    }
}

/// The form fields of one check-in, in order.
pub open spec fn form_spec(sign_id: Seq<char>, lat: Seq<char>, lng: Seq<char>) -> Seq<
    (Seq<char>, Seq<char>),
> {
    seq![
        ("id"@, sign_id),
        ("lat"@, lat),
        ("lng"@, lng),
        ("acc"@, "10.0"@),
        ("res"@, ""@),
        ("gps_addr"@, ""@),
        ("pwd"@, ""@),
    ]
}

pub open spec fn pair_views(v: Seq<(String, String)>) -> Seq<(Seq<char>, Seq<char>)> {
    v.map_values(|p: (String, String)| (p.0@, p.1@))
}

/// The line that reports one check-in.
pub open spec fn log_line_spec(name: Seq<char>, msg: Seq<char>, lat: Seq<char>, lng: Seq<char>) -> Seq<
    char,
> {
    "Task ["@ + name + "] Result: "@ + msg + " (Loc: "@ + lat + ","@ + lng + ")"@
}

/// The title of the notice for an outcome: the result title where the
/// check-in succeeded or its text marks an error, else the failure title.
pub open spec fn title_spec(name: Seq<char>, ok: bool, msg: Seq<char>) -> Seq<char> {
    if (ok && reports_success(msg)) || reports_error(msg) {
        name + " Check-in Result"@
    } else {
        name + " Check-in Failed"@
    }
}

/// The outcome text of a check-in response whose page text is `t`.
pub open spec fn sign_result_spec(t: Seq<char>) -> Result<Seq<char>, Seq<char>> {
    if reports_success(t) {
        Ok("签到成功"@)
    } else {
        Err(prefix_of(trimmed(t), FAILURE_PREFIX as nat))
    }
}

pub open spec fn result_view(r: Result<String, String>) -> Result<Seq<char>, Seq<char>> {
    match r {
        Ok(s) => Ok(s@),
        Err(s) => Err(s@),
    }
}

/// The headers of the portal's requests.
pub struct Headers {
    pub user_agent: String,
    pub referer: String,
    pub cookie: String,
}

/// One check-in to submit.
pub struct Submission {
    /// The opportunity.
    pub sign_id: String,
    /// Where to post.
    pub url: String,
    /// The form fields, in order.
    pub form: Vec<(String, String)>,
    /// The jittered latitude sent.
    pub lat: String,
    /// The jittered longitude sent.
    pub lng: String,
    /// How long to wait before posting, in milliseconds.
    pub pause_ms: u64,
}

/// A message to send about one check-in.
pub struct Notice {
    pub title: String,
    pub content: String,
}

/// What the caller does next in a run.
pub enum RunAction {
    /// Nothing is left.
    Done,
    /// Wait, then post this check-in.
    Submit(Submission),
}

/// A task run in progress: the task and the opportunities not yet tried.
pub struct TaskRun {
    pub task: Task,
    pub pending: Vec<String>,
}

/// Runs check-in tasks against the portal and reports through the webhook.
pub struct TaskExecutor {
    /// The portal's base address.
    pub base_url: String,
    /// The webhook settings.
    pub wecom: WeComConfig,
}

/// `s` with every `username=` taken out.
pub fn strip_username(s: &str) -> (r: String)
    ensures
        r@ == strip_user(s@),
{
    let v = chars_of(s);
    let pat = chars_of("username=");
    proof {
        reveal_strlit("username=");
    }
    let n = v.len();
    let mut r = String::new();
    let mut i: usize = 0;
    let mut seg: usize = 0;
    assert(s@.skip(0) =~= s@);
    while i < n
        invariant
            v@ == s@,
            n == s@.len(),
            pat@ == "username="@,
            pat@.len() == 9,
            seg <= i <= n,
            r@ + s@.subrange(seg as int, i as int) + strip_user(s@.skip(i as int)) == strip_user(s@),
        decreases n - i,
    {
        let ghost rest = s@.skip(i as int);
        if crate::text::occurs_at_exec(&v, &pat, i) {
            assert(rest.take(9) =~= s@.subrange(i as int, i + 9));
            assert(rest.skip(9) =~= s@.skip(i + 9));
            r = r.concat(s.substring_char(seg, i));
            i = i + 9;
            seg = i;
            assert(s@.subrange(seg as int, i as int) =~= Seq::<char>::empty());
        } else {
            assert(rest.len() >= 9 ==> rest.take(9) =~= s@.subrange(i as int, i + 9));
            assert(rest.skip(1) =~= s@.skip(i + 1));
            assert(rest[0] == s@[i as int]);
            assert(s@.subrange(seg as int, i + 1) =~= s@.subrange(seg as int, i as int) + seq![rest[0]]);
            i = i + 1;
        }
    }
    assert(s@.skip(n as int) =~= Seq::<char>::empty());
    r = r.concat(s.substring_char(seg, n));
    r
}

/// The outcome of a check-in, from the text of the response page: the
/// fixed success text where the page reports success, else the first 50
/// characters of its trimmed text.
pub fn classify_text(text: &str) -> (r: Result<String, String>)
    ensures
        result_view(r) == sign_result_spec(text@),
{
    let t = chars_of(text);
    let ok = contains_chars(&t, &chars_of("成功")) || contains_chars(&t, &chars_of("Success"));
    if ok {
        Ok(String::from_str("签到成功"))
    } else {
        Err(trimmed_prefix(text, FAILURE_PREFIX))
    }
}

/// The outcome of a check-in, from the response page's markup.
pub fn classify_page(html: &str) -> (r: Result<String, String>)
    ensures
        result_view(r) == sign_result_spec(document_text_of(html@)),
{
    let text = document_text(html);
    classify_text(text.as_str())
}

/// The notice for one outcome: its title, and the line that reports the
/// outcome and the coordinates sent.
pub fn outcome_notice(name: &str, result: &Result<String, String>, lat: &str, lng: &str) -> (r:
    Notice)
    ensures
        ({
            let msg = match result {
                Ok(m) => m@,
                Err(e) => e@,
            };
            &&& r.content@ == log_line_spec(name@, msg, lat@, lng@)
            &&& r.title@ == title_spec(name@, result is Ok, msg)
        }),
{
    let msg: &String = match result {
        Ok(m) => m,
        Err(e) => e,
    };
    let content = String::from_str("Task [").concat(name).concat("] Result: ").concat(
        msg.as_str(),
    ).concat(" (Loc: ").concat(lat).concat(",").concat(lng).concat(")");
    let m = chars_of(msg.as_str());
    let success = result.is_ok() && (contains_chars(&m, &chars_of("成功")) || contains_chars(
        &m,
        &chars_of("Success"),
    ));
    let error = contains_chars(&m, &chars_of("出错")) || contains_chars(&m, &chars_of("Error"));
    let title = if success || error {
        String::from_str(name).concat(" Check-in Result")
    } else {
        String::from_str(name).concat(" Check-in Failed")
    };
    Notice { title, content }
}

/// Relies on chrono's `Local::now` and `DateTime::format`: the local time
/// now, written by `fmt`.
#[verifier::external_body]
pub(crate) fn local_now(fmt: &str) -> (r: String)
    requires
        fmt@ == "%H:%M"@ || fmt@ == "%Y-%m-%d %H:%M:%S"@,
    ensures
        fmt@ == "%H:%M"@ ==> r@.len() == 5,
{
    chrono::Local::now().format(fmt).to_string()
}

impl TaskExecutor {
    /// An executor for the portal that reports through `wecom`.
    pub fn new(wecom: WeComConfig) -> (r: TaskExecutor)
        ensures
            r.base_url@ == BASE_URL@,
            r.wecom == wecom,
    {
        TaskExecutor { base_url: String::from_str(BASE_URL), wecom }
    }

    /// The headers of a task's requests: the browser identity, the course
    /// page as referer, and the cookie without its `username=` parts.
    pub fn build_headers(&self, cookie: &str, class_id: &str) -> (r: Headers)
        ensures
            r.user_agent@ == USER_AGENT@,
            r.referer@ == self.base_url@ + "/student/course/"@ + class_id@,
            r.cookie@ == strip_user(cookie@),
    {
        Headers {
            user_agent: String::from_str(USER_AGENT),
            referer: self.base_url.clone().concat("/student/course/").concat(class_id),
            cookie: strip_username(cookie),
        }
    }

    /// Where a course's check-in listing is read.
    pub fn listing_url(&self, class_id: &str) -> (r: String)
        ensures
            r@ == self.base_url@ + "/student/course/"@ + class_id@ + "/punchs"@,
    {
        self.base_url.clone().concat("/student/course/").concat(class_id).concat("/punchs")
    }

    /// Where one check-in is posted.
    pub fn sign_url(&self, class_id: &str, sign_id: &str) -> (r: String)
        ensures
            r@ == self.base_url@ + "/student/punchs/course/"@ + class_id@ + "/"@ + sign_id@,
    {
        self.base_url.clone().concat("/student/punchs/course/").concat(class_id).concat("/").concat(
            sign_id,
        )
    }

    /// Starts a run of `task` on its listing page: the opportunities to try
    /// are the open ids of the page, once each. A disabled task has none.
    /// An error where the page cannot be read.
    pub fn begin(&self, task: Task, listing_html: &str) -> (r: Result<TaskRun, String>)
        ensures
            !task.enable ==> r is Ok && r->Ok_0.pending@.len() == 0 && r->Ok_0.task == task,
            task.enable ==> match selected_html_of(listing_html@, "div.card-body"@) {
                Some(blocks) => r is Ok && r->Ok_0.task == task && distinct_views(
                    r->Ok_0.pending@,
                ) && forall|x: Seq<char>|
                    holds_id(r->Ok_0.pending@, x) <==> is_open_id(blocks, x),
                None => r is Err,
            },
    {
        if !task.enable {
            return Ok(TaskRun { task, pending: Vec::new() });
        }
        match active_ids_in_page(listing_html) {
            Ok(ids) => Ok(TaskRun { task, pending: ids }),
            Err(e) => Err(e),
        }
    }

    /// The next step of a run: done where no opportunity is left; else the
    /// last one leaves the run and is to be posted after a pause of one to
    /// five seconds, from a fresh jitter of the task's location.
    pub fn next_action(&self, run: &mut TaskRun) -> (r: RunAction)
        ensures
            final(run).task == old(run).task,
            old(run).pending@.len() == 0 ==> r is Done && final(run).pending@ == old(run).pending@,
            old(run).pending@.len() > 0 ==> ({
                let id = old(run).pending@.last()@;
                let t = old(run).task;
                &&& final(run).pending@ == old(run).pending@.drop_last()
                &&& r matches RunAction::Submit(s)
                &&& s.sign_id@ == id
                &&& s.url@ == self.base_url@ + "/student/punchs/course/"@ + t.class_id@ + "/"@ + id
                &&& jittered(t.location.lat@, s.lat@)
                &&& jittered(t.location.lng@, s.lng@)
                &&& pair_views(s.form@) == form_spec(id, s.lat@, s.lng@)
                &&& 1000 <= s.pause_ms < 5000
            }),
    {
        match run.pending.pop() {
            None => RunAction::Done,
            Some(sign_id) => {
                let pause = random_between(1000, 4999) as u64;
                let (lat, lng) = random_coordinate(run.task.location.lat.as_str(), run.task.location.lng.as_str());
                let url = self.sign_url(run.task.class_id.as_str(), sign_id.as_str());
                let form = sign_form(&sign_id, &lat, &lng);
                RunAction::Submit(Submission { sign_id, url, form, lat, lng, pause_ms: pause })
            },
        }
    }

    /// What a run reports about one posted check-in, from the response
    /// page's markup, or the transport's error where the post failed.
    pub fn report(&self, run: &TaskRun, sub: &Submission, response: Result<String, String>) -> (r:
        Notice)
        ensures
            ({
                let out = match response {
                    Ok(html) => sign_result_spec(document_text_of(html@)),
                    Err(e) => Err(e@),
                };
                let ok = out is Ok;
                let msg = match out {
                    Ok(m) => m,
                    Err(m) => m,
                };
                &&& r.content@ == log_line_spec(run.task.name@, msg, sub.lat@, sub.lng@)
                &&& r.title@ == title_spec(run.task.name@, ok, msg)
            }),
    {
        let outcome = match response {
            Ok(html) => classify_page(html.as_str()),
            Err(e) => Err(e),
        };
        outcome_notice(run.task.name.as_str(), &outcome, sub.lat.as_str(), sub.lng.as_str())
    }
}

/// The form of one check-in: the id, the coordinates, a fixed accuracy and
/// three empty fields that the portal's form requires.
pub fn sign_form(sign_id: &String, lat: &String, lng: &String) -> (r: Vec<(String, String)>)
    ensures
        pair_views(r@) == form_spec(sign_id@, lat@, lng@),
{
    let mut r: Vec<(String, String)> = Vec::new();
    r.push((String::from_str("id"), sign_id.clone()));
    r.push((String::from_str("lat"), lat.clone()));
    r.push((String::from_str("lng"), lng.clone()));
    r.push((String::from_str("acc"), String::from_str("10.0")));
    r.push((String::from_str("res"), String::new()));
    r.push((String::from_str("gps_addr"), String::new()));
    r.push((String::from_str("pwd"), String::new()));
    proof {
        reveal_strlit("");
        let f = form_spec(sign_id@, lat@, lng@);
        let p = pair_views(r@);
        assert(p.len() == f.len());
        assert forall|i: int| 0 <= i < p.len() implies p[i] == f[i] by {
            assert(p[i] == (r@[i].0@, r@[i].1@));
        }
        assert(p =~= f);
    }
    r
}

/// The tasks due now, by the local clock.
pub fn tasks_due_now(tasks: Vec<Task>) -> (r: Vec<Task>)
    ensures
        exists|now: Seq<char>| now.len() == 5 && r@ == crate::config::due_spec(tasks@, now),
{
    let now = local_now("%H:%M");
    crate::config::due_tasks(tasks, now.as_str())
}

} // verus!
