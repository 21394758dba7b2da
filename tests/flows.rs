use autocheckin::auth::{session_cookie, completion_url, login_link, extract_qr_params, params_in, query_string, AuthHandler};
use autocheckin::config::{due_tasks, AppConfig, Location, Task, WeComConfig};
use autocheckin::coords::{format_micro, random_coordinate, parse_micro, shifted};
use autocheckin::notify::{notification_text, message_text, send_outcome, send_request, token_request};
use autocheckin::scan::{active_ids, active_ids_in_page};
use autocheckin::task::{
    classify_page, classify_text, outcome_notice, sign_form, strip_username, RunAction, TaskExecutor,
};

fn s(x: &str) -> String {
    x.to_string()
}

fn sample_task(name: &str, enable: bool) -> Task {
    Task {
        id: s("t1"),
        name: s(name),
        time: s("08:30"),
        class_id: s("1234"),
        cookie: s("username=abc; session=xyz"),
        location: Location { lat: s("30.000000"), lng: s("120.000000"), acc: s("10") },
        enable,
    }
}

fn wecom(enable: bool) -> WeComConfig {
    WeComConfig {
        enable,
        corpid: s("corp"),
        secret: s("SECRET-REDACTED"),
        agentid: s("1000002"),
        touser: s("@all"),
    }
}

fn sorted(mut v: Vec<String>) -> Vec<String> {
    v.sort();
    v
}

fn micro(text: &str) -> i64 {
    parse_micro(text)
}

#[test]
fn success_marker_anywhere_gives_fixed_text() {
    assert_eq!(classify_text("提示：签到成功！"), Ok(s("签到成功")));
    assert_eq!(classify_text("  Success  "), Ok(s("签到成功")));
}

#[test]
fn failure_text_is_trimmed_and_cut_at_fifty() {
    assert_eq!(classify_text("密码错误，请重新输入"), Err(s("密码错误，请重新输入")));
    let long: String = std::iter::repeat('错').take(60).collect();
    let padded = format!("\n  {}  \t", long);
    let expected: String = std::iter::repeat('错').take(50).collect();
    assert_eq!(classify_text(&padded), Err(expected));
    assert_eq!(classify_text("   "), Err(s("")));
}

#[test]
fn response_page_text_is_classified() {
    let ok = "<html><body><div><p>签到</p><p>成功</p></div></body></html>";
    assert_eq!(classify_page(ok), Ok(s("签到成功")));
    let bad = "<html><body><h1> 已过期 </h1></body></html>";
    assert_eq!(classify_page(bad), Err(s("已过期")));
}

#[test]
fn same_id_in_two_conventions_counts_once() {
    let blocks = vec![s("<div class=\"card-body\"><a id=\"punchcard_42\"></a><b onclick=\"punch_gps(42)\"></b></div>")];
    assert_eq!(active_ids(&blocks), vec![s("42")]);
}

#[test]
fn signed_blocks_are_skipped() {
    let blocks = vec![
        s("<div>已签 punchcard_7 punch_pwd_frm_8</div>"),
        s("<div>punch_pwd_frm_13</div>"),
    ];
    assert_eq!(active_ids(&blocks), vec![s("13")]);
}

#[test]
fn id_conventions_need_their_full_shape() {
    let blocks = vec![s("punch_gps(5 punchcard_ punchcard_x punch_gps(66) punchcard_0012ab")];
    assert_eq!(sorted(active_ids(&blocks)), vec![s("0012"), s("66")]);
    let none: Vec<String> = vec![];
    assert_eq!(active_ids(&none), Vec::<String>::new());
}

#[test]
fn listing_page_yields_open_ids() {
    let html = "<html><body>\
        <div class=\"card-body\"><span id=\"punchcard_42\"></span><a onclick=\"punch_gps(42)\">go</a></div>\
        <div class=\"card-body\"><span>已签</span><span id=\"punchcard_9\"></span></div>\
        <div class=\"card-body\"><form id=\"punch_pwd_frm_77\"></form></div>\
        <div class=\"other\">punchcard_5</div>\
        </body></html>";
    let ids = active_ids_in_page(html).unwrap();
    assert_eq!(sorted(ids), vec![s("42"), s("77")]);
    assert_eq!(active_ids_in_page("<html></html>").unwrap(), Vec::<String>::new());
}

#[test]
fn decimals_read_in_micro_units() {
    assert_eq!(micro("30.5"), 30_500_000);
    assert_eq!(micro("-120.1234567"), -120_123_456);
    assert_eq!(micro("+.5"), 500_000);
    assert_eq!(micro("7."), 7_000_000);
    assert_eq!(micro("abc"), 0);
    assert_eq!(micro(""), 0);
    assert_eq!(micro("1.2.3"), 0);
    assert_eq!(micro("-"), 0);
}

#[test]
fn micro_units_written_with_six_places() {
    assert_eq!(format_micro(-50), s("-0.000050"));
    assert_eq!(format_micro(30_000_000), s("30.000000"));
    assert_eq!(format_micro(123_456_789), s("123.456789"));
    assert_eq!(shifted("1.25", 100), s("1.250100"));
    assert_eq!(shifted("bad", -150), s("-0.000150"));
}

#[test]
fn jitter_stays_within_bound_with_six_places() {
    for _ in 0..200 {
        let (lat, lng) = random_coordinate("30.000000", "120.5");
        assert_eq!(lat.split('.').nth(1).unwrap().len(), 6);
        assert_eq!(lng.split('.').nth(1).unwrap().len(), 6);
        assert!((micro(&lat) - 30_000_000).abs() <= 150);
        assert!((micro(&lng) - 120_500_000).abs() <= 150);
        let lat_f: f64 = lat.parse().unwrap();
        assert!((lat_f - 30.0).abs() <= 0.00015 + 1e-9);
    }
}

#[test]
fn cookie_loses_username_prefix() {
    assert_eq!(strip_username("username=abc; session=xyz"), s("abc; session=xyz"));
    assert_eq!(strip_username("a=1; username=username=b"), s("a=1; b"));
    assert_eq!(strip_username("usern"), s("usern"));
}

#[test]
fn requests_are_addressed_to_the_course() {
    let ex = TaskExecutor::new(wecom(false));
    let h = ex.build_headers("username=abc", "1234");
    assert_eq!(h.referer, s("http://k8n.cn/student/course/1234"));
    assert_eq!(h.cookie, s("abc"));
    assert!(h.user_agent.contains("MicroMessenger"));
    assert_eq!(ex.listing_url("1234"), s("http://k8n.cn/student/course/1234/punchs"));
    assert_eq!(ex.sign_url("1234", "42"), s("http://k8n.cn/student/punchs/course/1234/42"));
    let form = sign_form(&s("42"), &s("30.000001"), &s("120.000002"));
    let names: Vec<&str> = form.iter().map(|p| p.0.as_str()).collect();
    assert_eq!(names, vec!["id", "lat", "lng", "acc", "res", "gps_addr", "pwd"]);
    assert_eq!(form[0].1, s("42"));
    assert_eq!(form[3].1, s("10.0"));
    assert_eq!(form[6].1, s(""));
}

#[test]
fn notice_titles_follow_outcome() {
    let ok = outcome_notice("Math", &Ok(s("签到成功")), "1.000000", "2.000000");
    assert_eq!(ok.title, s("Math Check-in Result"));
    assert_eq!(ok.content, s("Task [Math] Result: 签到成功 (Loc: 1.000000,2.000000)"));
    let err = outcome_notice("Math", &Err(s("服务器出错")), "1", "2");
    assert_eq!(err.title, s("Math Check-in Result"));
    let fail = outcome_notice("Math", &Err(s("密码错误")), "1", "2");
    assert_eq!(fail.title, s("Math Check-in Failed"));
    let odd = outcome_notice("Math", &Err(s("Success?")), "1", "2");
    assert_eq!(odd.title, s("Math Check-in Failed"));
}

#[test]
fn two_opportunities_give_two_notices() {
    let ex = TaskExecutor::new(wecom(true));
    let task = sample_task("Math", true);
    let html = "<div class=\"card-body\">punchcard_1</div><div class=\"card-body\">punchcard_2</div>";
    let mut run = ex.begin(task, html).unwrap();
    let mut notices = Vec::new();
    let mut coords = Vec::new();
    let responses = vec![
        "<html><body>签到成功</body></html>",
        "<html><body>密码错误，请重新输入</body></html>",
    ];
    let mut k = 0;
    loop {
        match ex.next_action(&mut run) {
            RunAction::Done => break,
            RunAction::Submit(sub) => {
                assert!(sub.pause_ms >= 1000 && sub.pause_ms < 5000);
                assert!(sub.url.starts_with("http://k8n.cn/student/punchs/course/1234/"));
                coords.push((sub.lat.clone(), sub.lng.clone()));
                let n = ex.report(&run, &sub, Ok(s(responses[k])));
                notices.push(n);
                k += 1;
            }
        }
    }
    assert_eq!(notices.len(), 2);
    assert_eq!(notices[0].title, s("Math Check-in Result"));
    assert_eq!(notices[1].title, s("Math Check-in Failed"));
    assert!(notices[1].content.contains("密码错误"));
    let base = (s("30.000000"), s("120.000000"));
    assert_ne!(coords[0], coords[1]);
    assert_ne!(coords[0], base);
    assert_ne!(coords[1], base);
}

#[test]
fn disabled_task_and_failed_post() {
    let ex = TaskExecutor::new(wecom(false));
    let mut run = ex.begin(sample_task("Off", false), "<div class=\"card-body\">punchcard_1</div>").unwrap();
    assert!(matches!(ex.next_action(&mut run), RunAction::Done));
    let mut run = ex.begin(sample_task("On", true), "<div class=\"card-body\">punchcard_1</div>").unwrap();
    match ex.next_action(&mut run) {
        RunAction::Submit(sub) => {
            assert_eq!(sub.sign_id, s("1"));
            let n = ex.report(&run, &sub, Err(s("connection Error")));
            assert_eq!(n.title, s("On Check-in Result"));
        }
        RunAction::Done => panic!("an opportunity was expected"),
    }
}

#[test]
fn disabled_notifier_makes_no_request() {
    assert_eq!(token_request(&wecom(false)), None);
    assert_eq!(
        token_request(&wecom(true)),
        Some(s("https://qyapi.weixin.qq.com/cgi-bin/gettoken?corpid=corp&corpsecret=SECRET-REDACTED"))
    );
}

#[test]
fn token_and_send_responses_are_read() {
    assert_eq!(
        send_request("{\"access_token\": \"tok\", \"expires_in\": 7200}"),
        Ok(s("https://qyapi.weixin.qq.com/cgi-bin/message/send?access_token=tok"))
    );
    assert_eq!(send_request("{\"errcode\": 40013}"), Err(s("Failed to get access token")));
    assert!(send_request("not json").is_err());
    assert_eq!(send_outcome("{\"errcode\": 0, \"errmsg\": \"ok\"}"), Ok(()));
    assert_eq!(send_outcome("{\"errcode\": 81013}"), Err(s("WeCom Error: {\"errcode\": 81013}")));
    assert_eq!(send_outcome("{}"), Err(s("WeCom Error: {}")));
    assert!(send_outcome("<html>").is_err());
}

#[test]
fn message_has_banner_title_content_and_time() {
    assert_eq!(
        message_text("T", "C", "2024-01-02 03:04:05"),
        s("【Checkin Magic】\nT\n----------------\nC\nTime: 2024-01-02 03:04:05")
    );
}

#[test]
fn poll_waits_until_status_one() {
    let auth = AuthHandler::new();
    assert_eq!(auth.check_login("{\"status\": 0}"), Ok(None));
    assert_eq!(auth.check_login("{}"), Ok(None));
    assert_eq!(auth.check_login("{\"status\": 1}"), Ok(None));
    assert_eq!(
        auth.check_login("{\"status\": 1, \"url\": \"https://x/y?foo=bar\"}"),
        Ok(Some(s("https://bj.k8n.cn/student/uidlogin?foo=bar")))
    );
    assert!(auth.check_login("{\"status\": 1, \"url\": 5}").is_err());
    assert!(auth.check_login("oops").is_err());
    assert_eq!(auth.status_url(), s("https://login.b8n.cn/qr/weixin/student/2?op=checklogin"));
}

#[test]
fn completion_url_keeps_first_query() {
    assert_eq!(completion_url("https://x/y?foo=bar"), s("https://bj.k8n.cn/student/uidlogin?foo=bar"));
    assert_eq!(completion_url("https://x/y?a=1?b=2"), s("https://bj.k8n.cn/student/uidlogin?a=1"));
    assert_eq!(completion_url("https://x/y"), s("https://bj.k8n.cn/student/uidlogin?"));
}

#[test]
fn login_parameters_are_read_from_the_url() {
    let ps = params_in("https://login.b8n.cn/x?sess=A1&tm=99&sign=zz&other=1");
    assert_eq!(ps, vec![(s("sess"), s("A1")), (s("tm"), s("99")), (s("sign"), s("zz"))]);
    let ps = params_in("http://h/p?sign=a?tm=b&sess=&tm=c");
    assert_eq!(ps, vec![(s("sign"), s("a?tm=b")), (s("tm"), s("c"))]);
    assert_eq!(query_string(&ps), s("sign=a?tm=b&tm=c"));
}

#[test]
fn login_script_gives_ordered_parameters() {
    let scripts = vec![
        s("var a = 'http://other.example/?sess=no';"),
        s("var u = \"https://login.b8n.cn/q?tm=5&sign=S&sess=X&sess=Y\";"),
    ];
    let ps = extract_qr_params(&scripts).unwrap();
    assert_eq!(ps, vec![(s("sess"), s("Y")), (s("tm"), s("5")), (s("sign"), s("S"))]);
    assert_eq!(
        login_link(&ps),
        s("http://login.b8n.cn/weixin/login/student/2?sess=Y&tm=5&sign=S")
    );
    let none = vec![s("login.b8n.cn without a link"), s("http://x.example/")];
    assert!(extract_qr_params(&none).is_err());
    let bare = vec![s("go('https://login.b8n.cn/q')")];
    assert!(extract_qr_params(&bare).is_err());
}

#[test]
fn login_page_gives_png_code_and_poll_url() {
    let auth = AuthHandler::new();
    let html = "<html><head><script>var x = 1;</script>\
        <script>location.href = 'https://login.b8n.cn/q?sess=abc&tm=1&sign=def';</script></head></html>";
    let (img, url) = auth.get_qr_code(html).unwrap();
    assert!(img.starts_with("iVBORw0KGgo"));
    assert_eq!(img.len() % 4, 0);
    assert_eq!(url, s("https://login.b8n.cn/qr/weixin/student/2"));
    assert!(auth.get_qr_code("<html><script>nothing</script></html>").is_err());
}

#[test]
fn default_config_is_empty_and_silent() {
    let c = AppConfig::default();
    assert!(c.tasks.is_empty());
    assert!(!c.global.wecom.enable);
    assert_eq!(c.global.wecom.touser, s("@all"));
    assert!(!c.global.debug);
}

#[test]
fn tasks_are_added_updated_and_deleted_by_id() {
    let mut c = AppConfig::default();
    let mut t = sample_task("A", true);
    t.id = s("");
    c.add_task(t);
    assert_eq!(c.tasks[0].id.len(), 36);
    c.add_task(sample_task("B", true));
    assert_eq!(c.tasks[1].id, s("t1"));
    let mut changed = sample_task("B2", false);
    changed.id = s("t1");
    assert_eq!(c.update_task(changed), Ok(()));
    assert_eq!(c.tasks[1].name, s("B2"));
    let mut missing = sample_task("C", true);
    missing.id = s("nope");
    assert_eq!(c.update_task(missing), Err(s("Task not found")));
    assert_eq!(c.delete_task(&s("nope")), Err(s("Task not found")));
    assert_eq!(c.delete_task(&s("t1")), Ok(()));
    assert_eq!(c.tasks.len(), 1);
    assert_eq!(c.tasks[0].name, s("A"));
}

#[test]
fn due_tasks_match_time_and_enable() {
    let mut a = sample_task("A", true);
    a.time = s("08:30");
    let mut b = sample_task("B", false);
    b.time = s("08:30");
    let mut c = sample_task("C", true);
    c.time = s("09:00");
    let mut d = sample_task("D", true);
    d.time = s("08:30");
    let due = due_tasks(vec![a, b, c, d], "08:30");
    let names: Vec<String> = due.into_iter().map(|t| t.name).collect();
    assert_eq!(names, vec![s("A"), s("D")]);
}

#[test]
fn session_cookie_keeps_name_value_pairs() {
    let set = vec![s("PHPSESSID=abc; path=/; HttpOnly"), s("remember=1"), s("x=y;")];
    assert_eq!(session_cookie(&set), s("PHPSESSID=abc; remember=1; x=y"));
    assert_eq!(session_cookie(&vec![]), s(""));
}

#[test]
fn notification_text_is_stamped() {
    let t = notification_text("T", "C");
    assert!(t.starts_with("【Checkin Magic】\nT\n----------------\nC\nTime: "));
    let stamp = &t[t.find("Time: ").unwrap() + 6..];
    assert_eq!(stamp.len(), 19);
    assert_eq!(&stamp[4..5], "-");
}
