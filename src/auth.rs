//! The QR-code login handshake: reading the login parameters out of the
//! login page's scripts, the deep link and its code, and the decisions of
//! the status poll.
use vstd::prelude::*;
use crate::html::{select_text, selected_text_of};
use crate::json::{json_field, json_field_of, FieldView, JsonField};
use crate::scan::views;
use crate::task::pair_views;
use crate::text::{chars_of, contains_chars, has_sub, is_ws, is_ws_char, occurs_at, occurs_at_exec};

verus! {

/// Where the login page is, and where its status is polled.
pub const LOGIN_PAGE: &'static str = "https://login.b8n.cn/qr/weixin/student/2";

/// The host that the login script names.
pub const LOGIN_HOST: &'static str = "login.b8n.cn";

/// The deep link that the code encodes, before its query.
pub const LINK_BASE: &'static str = "http://login.b8n.cn/weixin/login/student/2?";

/// The page that completes a login, before its query.
pub const COMPLETION_BASE: &'static str = "https://bj.k8n.cn/student/uidlogin?";

/// A character that can stand in a URL of a script: no white space and
/// no quote.
pub open spec fn url_char(c: char) -> bool {
    !is_ws(c) && c != '"' && c != '\''
}

/// The number of URL characters of `s` from `j` on.
pub open spec fn url_run(s: Seq<char>, j: int) -> nat
    decreases s.len() - j,
{
    if 0 <= j < s.len() && url_char(s[j]) {
        1 + url_run(s, j + 1)
    } else {
        0
    }
}

/// The length of the scheme (`https://` or `http://`) of a URL that starts
/// at `i`, followed by at least one URL character; 0 where none starts there.
pub open spec fn scheme_at(s: Seq<char>, i: int) -> int {
    if occurs_at(s, "https://"@, i) && url_run(s, i + 8) > 0 {
        8
    } else if occurs_at(s, "http://"@, i) && url_run(s, i + 7) > 0 {
        7
    } else {
        0
    }
}

pub open spec fn first_url_at(s: Seq<char>, i: int) -> bool {
    0 <= i < s.len() && scheme_at(s, i) > 0 && forall|j: int| 0 <= j < i ==> scheme_at(s, j) == 0
}

/// The first URL in `s`: its scheme and all the URL characters after it.
pub open spec fn first_url(s: Seq<char>) -> Option<Seq<char>> {
    if exists|i: int| first_url_at(s, i) {
        let i = choose|i: int| first_url_at(s, i);
        Some(s.subrange(i, i + scheme_at(s, i) + url_run(s, i + scheme_at(s, i))))
    } else {
        None
    }
}

/// The name of the login parameter whose `name=` starts at `i`, if any.
pub open spec fn key_at(s: Seq<char>, i: int) -> Option<Seq<char>> {
    if occurs_at(s, "sess="@, i) {
        Some("sess"@)
    } else if occurs_at(s, "tm="@, i) {
        Some("tm"@)
    } else if occurs_at(s, "sign="@, i) {
        Some("sign"@)
    } else {
        None
    }
}

/// The number of characters of `s` from `j` on up to the next `&`.
pub open spec fn value_run(s: Seq<char>, j: int) -> nat
    decreases s.len() - j,
{
    if 0 <= j < s.len() && s[j] != '&' {
        1 + value_run(s, j + 1)
    } else {
        0
    }
}

/// A parameter at `i`: `?` or `&`, a known name, `=`, and a value of at
/// least one character that runs to the next `&`. Gives the name, the
/// value and where the match ends.
pub open spec fn param_at(s: Seq<char>, i: int) -> Option<(Seq<char>, Seq<char>, int)> {
    if 0 <= i < s.len() && (s[i] == '?' || s[i] == '&') && key_at(s, i + 1) is Some {
        let k = key_at(s, i + 1)->Some_0;
        let j = i + 1 + k.len() + 1;
        if value_run(s, j) > 0 {
            Some((k, s.subrange(j, j + value_run(s, j)), j + value_run(s, j)))
        } else {
            None
        }
    } else {
        None
    }
}

/// The parameters of `s` from `i` on, left to right, none overlapping.
pub open spec fn params_from(s: Seq<char>, i: int) -> Seq<(Seq<char>, Seq<char>)>
    decreases s.len() - i,
{
    if i < 0 || i >= s.len() {
        Seq::empty()
    } else {
        match param_at(s, i) {
            Some(p) => if i < p.2 <= s.len() {
                seq![(p.0, p.1)] + params_from(s, p.2)
            } else {
                Seq::empty()
            },
            None => params_from(s, i + 1),
        }
    }
}

/// The last value that `ms` gives the name `k`.
pub open spec fn last_value(ms: Seq<(Seq<char>, Seq<char>)>, k: Seq<char>) -> Option<Seq<char>>
    decreases ms.len(),
{
    if ms.len() == 0 {
        None
    } else if ms.last().0 == k {
        Some(ms.last().1)
    } else {
        last_value(ms.drop_last(), k)
    }
}

pub open spec fn with_param(
    acc: Seq<(Seq<char>, Seq<char>)>,
    ms: Seq<(Seq<char>, Seq<char>)>,
    k: Seq<char>,
) -> Seq<(Seq<char>, Seq<char>)> {
    match last_value(ms, k) {
        Some(v) => acc.push((k, v)),
        None => acc,
    }
}

/// The login parameters of a URL: `sess`, `tm` and `sign`, in that order,
/// each with the last value the URL gives it, leaving out those it lacks.
pub open spec fn login_params(url: Seq<char>) -> Seq<(Seq<char>, Seq<char>)> {
    let ms = params_from(url, 0);
    with_param(with_param(with_param(Seq::empty(), ms, "sess"@), ms, "tm"@), ms, "sign"@)
}

/// The script that login parameters are read from: the first that names
/// the login host and holds a URL.
pub open spec fn login_script_at(scripts: Seq<Seq<char>>, b: int) -> bool {
    &&& 0 <= b < scripts.len()
    &&& has_sub(scripts[b], LOGIN_HOST@)
    &&& first_url(scripts[b]) is Some
    &&& forall|c: int|
        0 <= c < b ==> !(has_sub(#[trigger] scripts[c], LOGIN_HOST@) && first_url(scripts[c]) is Some)
}

/// The login parameters that the scripts give, if a script gives any.
pub open spec fn script_params(scripts: Seq<Seq<char>>) -> Option<Seq<(Seq<char>, Seq<char>)>> {
    if exists|b: int| login_script_at(scripts, b) {
        let b = choose|b: int| login_script_at(scripts, b);
        let ps = login_params(first_url(scripts[b])->Some_0);
        if ps.len() > 0 {
            Some(ps)
        } else {
            None
        }
    } else {
        None
    }
}

/// `name=value` pairs joined by `&`.
pub open spec fn query_of(ps: Seq<(Seq<char>, Seq<char>)>) -> Seq<char>
    decreases ps.len(),
{
    if ps.len() == 0 {
        Seq::empty()
    } else if ps.len() == 1 {
        ps[0].0 + "="@ + ps[0].1
    } else {
        query_of(ps.drop_last()) + "&"@ + ps.last().0 + "="@ + ps.last().1
    }
}

/// The part of `u` between its first `?` and the next one, or the end;
/// empty where it has no `?`.
pub open spec fn query_tail(u: Seq<char>) -> Seq<char> {
    if exists|i: int| 0 <= i < u.len() && u[i] == '?' && forall|j: int| 0 <= j < i ==> u[j] != '?' {
        let i = choose|i: int|
            0 <= i < u.len() && u[i] == '?' && forall|j: int| 0 <= j < i ==> u[j] != '?';
        let rest = u.skip(i + 1);
        if exists|e: int| 0 <= e < rest.len() && rest[e] == '?' && forall|j: int| 0 <= j < e ==> rest[j] != '?' {
            let e = choose|e: int|
                0 <= e < rest.len() && rest[e] == '?' && forall|j: int| 0 <= j < e ==> rest[j] != '?';
            rest.take(e)
        } else {
            rest
        }
    } else {
        Seq::empty()
    }
}

/// A QR code of `text`, as PNG bytes; `None` where the text does not fit.
pub uninterp spec fn qr_png_of(text: Seq<char>) -> Option<Seq<u8>>;

/// The standard, padded base64 text of `b`.
pub uninterp spec fn base64_of(b: Seq<u8>) -> Seq<char>;

/// Relies on qrcode's `QrCode::new` and `render`, and on image's
/// `ImageBuffer::write_to` in PNG: the code of `text` as PNG bytes, or the
/// error where it does not fit.
#[verifier::external_body]
fn qr_png(text: &str) -> (r: Result<Vec<u8>, String>)
    ensures
        match r {
            Ok(b) => qr_png_of(text@) == Some(b@),
            Err(_) => qr_png_of(text@) is None,
        },
{
    let code = qrcode::QrCode::new(text.as_bytes()).map_err(|e| e.to_string())?;
    let img = code.render::<image::Luma<u8>>().build();
    let mut buf = std::io::Cursor::new(Vec::new());
    img.write_to(&mut buf, image::ImageFormat::Png).map_err(|e| e.to_string())?;
    Ok(buf.into_inner())
}

/// Relies on base64's `STANDARD` engine: padded output, four characters
/// for every three bytes or part of them.
#[verifier::external_body]
fn base64_encode(b: &Vec<u8>) -> (r: String)
    ensures
        r@ == base64_of(b@),
        r@.len() == 4 * ((b@.len() + 2) / 3),
{
    base64::Engine::encode(&base64::engine::general_purpose::STANDARD, b)
}

/// Handles the login handshake with the portal.
pub struct AuthHandler {
    /// Where the login page is, and where its status is polled.
    pub base_qr_url: String,
}

/// The number of URL characters of `v` from `j` on.
fn url_run_exec(v: &Vec<char>, j: usize) -> (k: usize)
    requires
        j <= v.len(),
    ensures
        k == url_run(v@, j as int),
        j + k <= v.len(),
{
    let mut m: usize = j;
    while m < v.len() && !is_ws_char(v[m]) && v[m] != '"' && v[m] != '\''
        invariant
            j <= m <= v.len(),
            url_run(v@, j as int) == (m - j) + url_run(v@, m as int),
        decreases v.len() - m,
    {
        m = m + 1;
    }
    m - j
}

/// The length of the URL scheme at `i`, as `scheme_at`.
fn scheme_at_exec(v: &Vec<char>, https: &Vec<char>, http: &Vec<char>, i: usize) -> (r: usize)
    requires
        https@ == "https://"@,
        http@ == "http://"@,
        https@.len() == 8,
        http@.len() == 7,
        i < v.len(),
    ensures
        r == scheme_at(v@, i as int),
{
    if occurs_at_exec(v, https, i) && url_run_exec(v, i + 8) > 0 {
        8
    } else if occurs_at_exec(v, http, i) && url_run_exec(v, i + 7) > 0 {
        7
    } else {
        0
    }
}

/// The first URL of `s`, as `first_url`.
pub fn find_first_url(s: &str) -> (r: Option<String>)
    ensures
        match r {
            Some(u) => first_url(s@) == Some(u@),
            None => first_url(s@) is None,
        },
{
    let v = chars_of(s);
    let https = chars_of("https://");
    let http = chars_of("http://");
    proof {
        reveal_strlit("https://");
        reveal_strlit("http://");
    }
    let mut i: usize = 0;
    while i < v.len()
        invariant
            v@ == s@,
            https@ == "https://"@,
            http@ == "http://"@,
            https@.len() == 8,
            http@.len() == 7,
            i <= v.len(),
            forall|j: int| 0 <= j < i ==> scheme_at(s@, j) == 0,
        decreases v.len() - i,
    {
        let sc = scheme_at_exec(&v, &https, &http, i);
        if sc > 0 {
            assert(first_url_at(s@, i as int));
            proof {
                let c = choose|c: int| first_url_at(s@, c);
                if c < i {
                    assert(scheme_at(s@, c) == 0);
                }
                if c > i {
                    assert(scheme_at(s@, i as int) == 0);
                }
            }
            assert(i + sc <= v.len()) by {
                if sc == 8 {
                    assert(occurs_at(s@, "https://"@, i as int));
                } else {
                    assert(occurs_at(s@, "http://"@, i as int));
                }
            }
            let k = url_run_exec(&v, i + sc);
            return Some(String::from_str(s.substring_char(i, i + sc + k)));
        }
        i = i + 1;
    }
    assert forall|c: int| !first_url_at(s@, c) by {}
    None
}

/// The login parameter at position `i` of `v`, as `param_at`.
fn param_at_exec(s: &str, v: &Vec<char>, keys: &Vec<Vec<char>>, i: usize) -> (r: Option<
    (String, String, usize),
>)
    requires
        v@ == s@,
        keys.len() == 3,
        keys[0]@ == "sess="@,
        keys[1]@ == "tm="@,
        keys[2]@ == "sign="@,
        keys[0]@.len() == 5,
        keys[1]@.len() == 3,
        keys[2]@.len() == 5,
        "sess"@.len() == 4,
        "tm"@.len() == 2,
        "sign"@.len() == 4,
        i < v.len(),
    ensures
        match r {
            Some(p) => param_at(s@, i as int) == Some((p.0@, p.1@, p.2 as int)) && i < p.2 <= v.len(),
            None => param_at(s@, i as int) is None,
        },
{
    if !(v[i] == '?' || v[i] == '&') {
        return None;
    }
    let (key, klen) = if occurs_at_exec(v, &keys[0], i + 1) {
        (String::from_str("sess"), 5)
    } else if occurs_at_exec(v, &keys[1], i + 1) {
        (String::from_str("tm"), 3)
    } else if occurs_at_exec(v, &keys[2], i + 1) {
        (String::from_str("sign"), 5)
    } else {
        return None;
    };
    let j: usize = i + 1 + klen;
    let k = value_run_exec(v, j);
    if k == 0 {
        return None;
    }
    Some((key, String::from_str(s.substring_char(j, j + k)), j + k))
}

/// The number of characters of `v` from `j` on up to the next `&`.
fn value_run_exec(v: &Vec<char>, j: usize) -> (k: usize)
    requires
        j <= v.len(),
    ensures
        k == value_run(v@, j as int),
        j + k <= v.len(),
{
    let mut m: usize = j;
    while m < v.len() && v[m] != '&'
        invariant
            j <= m <= v.len(),
            value_run(v@, j as int) == (m - j) + value_run(v@, m as int),
        decreases v.len() - m,
    {
        m = m + 1;
    }
    m - j
}

/// The login parameters of `u` in the order they stand, as `params_from`.
pub fn params_in(u: &str) -> (r: Vec<(String, String)>)
    ensures
        pair_views(r@) == params_from(u@, 0),
{
    let v = chars_of(u);
    let mut keys: Vec<Vec<char>> = Vec::new();
    keys.push(chars_of("sess="));
    keys.push(chars_of("tm="));
    keys.push(chars_of("sign="));
    proof {
        reveal_strlit("sess=");
        reveal_strlit("tm=");
        reveal_strlit("sign=");
        reveal_strlit("sess");
        reveal_strlit("tm");
        reveal_strlit("sign");
    }
    let mut r: Vec<(String, String)> = Vec::new();
    let mut i: usize = 0;
    while i < v.len()
        invariant
            v@ == u@,
            keys.len() == 3,
            keys[0]@ == "sess="@,
            keys[1]@ == "tm="@,
            keys[2]@ == "sign="@,
            keys[0]@.len() == 5,
            keys[1]@.len() == 3,
            keys[2]@.len() == 5,
            "sess"@.len() == 4,
            "tm"@.len() == 2,
            "sign"@.len() == 4,
            i <= v.len(),
            pair_views(r@) + params_from(u@, i as int) == params_from(u@, 0),
        decreases v.len() - i,
    {
        match param_at_exec(u, &v, &keys, i) {
            Some(p) => {
                let ghost pre = pair_views(r@);
                let ghost kv = (p.0@, p.1@);
                let e = p.2;
                r.push((p.0, p.1));
                assert(pair_views(r@) =~= pre.push(kv));
                assert(pre.push(kv) + params_from(u@, e as int) =~= pre + (seq![kv] + params_from(u@, e as int)));
                i = e;
            },
            None => {
                i = i + 1;
            },
        }
    }
    assert(pair_views(r@) + params_from(u@, i as int) =~= pair_views(r@));
    r
}

/// The last value that `ms` gives `k`, as `last_value`.
fn last_value_exec(ms: &Vec<(String, String)>, k: &String) -> (r: Option<String>)
    ensures
        match r {
            Some(v) => last_value(pair_views(ms@), k@) == Some(v@),
            None => last_value(pair_views(ms@), k@) is None,
        },
{
    let ghost pv = pair_views(ms@);
    let mut j: usize = ms.len();
    assert(pv.take(j as int) =~= pv);
    while j > 0
        invariant
            j <= ms.len(),
            pv == pair_views(ms@),
            last_value(pv, k@) == last_value(pv.take(j as int), k@),
        decreases j,
    {
        let ghost t = pv.take(j as int);
        assert(t.last() == (ms@[j - 1].0@, ms@[j - 1].1@));
        assert(t.drop_last() =~= pv.take(j - 1));
        if ms[j - 1].0 == *k {
            return Some(ms[j - 1].1.clone());
        }
        j = j - 1;
    }
    None
}

/// The login parameters of a URL, as `login_params`.
pub fn login_params_of(url: &str) -> (r: Vec<(String, String)>)
    ensures
        pair_views(r@) == login_params(url@),
{
    let ms = params_in(url);
    let ghost pv = pair_views(ms@);
    let mut r: Vec<(String, String)> = Vec::new();
    let sess = String::from_str("sess");
    let tm = String::from_str("tm");
    let sign = String::from_str("sign");
    if let Some(v) = last_value_exec(&ms, &sess) {
        r.push((sess, v));
    }
    let ghost a = pair_views(r@);
    assert(a =~= with_param(Seq::empty(), pv, "sess"@));
    if let Some(v) = last_value_exec(&ms, &tm) {
        r.push((tm, v));
    }
    let ghost b = pair_views(r@);
    assert(b =~= with_param(a, pv, "tm"@));
    if let Some(v) = last_value_exec(&ms, &sign) {
        r.push((sign, v));
    }
    assert(pair_views(r@) =~= with_param(b, pv, "sign"@));
    r
}

/// The login parameters that the scripts of the login page give: those of
/// the first URL of the first script that names the login host and holds a
/// URL. An error where no script does, or where its URL has none.
pub fn extract_qr_params(scripts: &Vec<String>) -> (r: Result<Vec<(String, String)>, String>)
    ensures
        match script_params(views(scripts@)) {
            Some(ps) => r is Ok && pair_views(r->Ok_0@) == ps,
            None => r is Err,
        },
{
    let host = chars_of(LOGIN_HOST);
    let ghost sv = views(scripts@);
    let mut b: usize = 0;
    while b < scripts.len()
        invariant
            host@ == LOGIN_HOST@,
            sv == views(scripts@),
            b <= scripts.len(),
            forall|c: int|
                0 <= c < b ==> !(has_sub(#[trigger] sv[c], LOGIN_HOST@) && first_url(sv[c]) is Some),
        decreases scripts.len() - b,
    {
        let script = &scripts[b];
        assert(sv[b as int] == script@);
        if contains_chars(&chars_of(script.as_str()), &host) {
            match find_first_url(script.as_str()) {
                Some(url) => {
                    assert(login_script_at(sv, b as int));
                    proof {
                        let c = choose|c: int| login_script_at(sv, c);
                        if c < b {
                            assert(!(has_sub(sv[c], LOGIN_HOST@) && first_url(sv[c]) is Some));
                        }
                        if c > b {
                            assert(!(has_sub(sv[b as int], LOGIN_HOST@) && first_url(sv[b as int]) is Some));
                        }
                    }
                    let ps = login_params_of(url.as_str());
                    if ps.len() == 0 {
                        return Err(String::from_str("Could not extract QR params"));
                    }
                    return Ok(ps);
                },
                None => {},
            }
        }
        b = b + 1;
    }
    assert forall|c: int| !login_script_at(sv, c) by {}
    Err(String::from_str("Could not extract QR params"))
}

/// `name=value` pairs joined by `&`, as `query_of`.
pub fn query_string(ps: &Vec<(String, String)>) -> (r: String)
    ensures
        r@ == query_of(pair_views(ps@)),
{
    let ghost pv = pair_views(ps@);
    let mut r = String::new();
    let mut i: usize = 0;
    assert(pv.take(0) =~= Seq::<(Seq<char>, Seq<char>)>::empty());
    while i < ps.len()
        invariant
            i <= ps.len(),
            pv == pair_views(ps@),
            r@ == query_of(pv.take(i as int)),
        decreases ps.len() - i,
    {
        let ghost t = pv.take(i + 1);
        assert(t.drop_last() =~= pv.take(i as int));
        assert(t.last() == (ps@[i as int].0@, ps@[i as int].1@));
        if i > 0 {
            r = r.concat("&");
        } else {
            assert(t[0] == t.last());
        }
        r = r.concat(ps[i].0.as_str()).concat("=").concat(ps[i].1.as_str());
        proof {
            if i == 0 {
                assert(r@ =~= query_of(t));
            } else {
                assert(r@ =~= query_of(t));
            }
        }
        i = i + 1;
    }
    assert(pv.take(ps.len() as int) =~= pv);
    r
}

/// The deep link that the login code encodes.
pub fn login_link(ps: &Vec<(String, String)>) -> (r: String)
    ensures
        r@ == LINK_BASE@ + query_of(pair_views(ps@)),
{
    String::from_str(LINK_BASE).concat(query_string(ps).as_str())
}

/// The first position at or after `from` where `v` holds `c`, or its length.
fn find_char(v: &Vec<char>, c: char, from: usize) -> (r: usize)
    requires
        from <= v.len(),
    ensures
        from <= r <= v.len(),
        r < v.len() ==> v@[r as int] == c,
        forall|j: int| from <= j < r ==> v@[j] != c,
{
    let mut i: usize = from;
    while i < v.len() && v[i] != c
        invariant
            from <= i <= v.len(),
            forall|j: int| from <= j < i ==> v@[j] != c,
        decreases v.len() - i,
    {
        i = i + 1;
    }
    i
}

/// The page that completes a login whose poll named `redirect`: the fixed
/// completion page with the query of `redirect`.
pub fn completion_url(redirect: &str) -> (r: String)
    ensures
        r@ == COMPLETION_BASE@ + query_tail(redirect@),
{
    let v = chars_of(redirect);
    let n = v.len();
    let q = find_char(&v, '?', 0);
    let base = String::from_str(COMPLETION_BASE);
    let ghost u = redirect@;
    if q == n {
        assert(!exists|i: int| 0 <= i < u.len() && u[i] == '?' && forall|j: int| 0 <= j < i ==> u[j] != '?');
        assert(base@ + Seq::<char>::empty() =~= base@);
        return base;
    }
    assert(0 <= q < u.len() && u[q as int] == '?' && forall|j: int| 0 <= j < q ==> u[j] != '?');
    proof {
        let i = choose|i: int| 0 <= i < u.len() && u[i] == '?' && forall|j: int| 0 <= j < i ==> u[j] != '?';
        if i < q {
            assert(u[i] != '?');
        }
        if q < i {
            assert(u[q as int] != '?');
        }
    }
    let e = find_char(&v, '?', q + 1);
    let ghost rest = u.skip(q + 1);
    if e == n {
        assert forall|x: int| !(0 <= x < rest.len() && rest[x] == '?' && forall|j: int| 0 <= j < x ==> rest[j] != '?') by {
            if 0 <= x < rest.len() {
                assert(rest[x] == u[q + 1 + x]);
            }
        }
        assert(rest =~= u.subrange(q + 1, n as int));
    } else {
        let ghost ee = e - q - 1;
        assert(rest[ee] == '?');
        assert forall|j: int| 0 <= j < ee implies rest[j] != '?' by {
            assert(rest[j] == u[q + 1 + j]);
        }
        proof {
            let x = choose|x: int| 0 <= x < rest.len() && rest[x] == '?' && forall|j: int| 0 <= j < x ==> rest[j] != '?';
            if x < ee {
                assert(rest[x] == u[q + 1 + x]);
            }
            if ee < x {
                assert(rest[ee] != '?');
            }
        }
        assert(rest.take(ee) =~= u.subrange(q + 1, e as int));
    }
    base.concat(redirect.substring_char(q + 1, e))
}

impl AuthHandler {
    /// A handler for the portal's login page.
    pub fn new() -> (r: AuthHandler)
        ensures
            r.base_qr_url@ == LOGIN_PAGE@,
    {
        AuthHandler { base_qr_url: String::from_str(LOGIN_PAGE) }
    }

    /// The login code of the login page `html`: the deep link built from the
    /// page's login parameters, as a QR code in PNG, in base64; and the URL
    /// to poll. An error where the page gives no parameters or the link does
    /// not fit in a code.
    pub fn get_qr_code(&self, html: &str) -> (r: Result<(String, String), String>)
        ensures
            match selected_text_of(html@, "script"@) {
                Some(scripts) => match script_params(scripts) {
                    Some(ps) => match qr_png_of(LINK_BASE@ + query_of(ps)) {
                        Some(png) => r is Ok && r->Ok_0.0@ == base64_of(png) && r->Ok_0.1@
                            == self.base_qr_url@,
                        None => r is Err,
                    },
                    None => r is Err,
                },
                None => r is Err,
            },
    {
        let scripts = match select_text(html, "script") {
            Some(s) => s,
            None => {
                return Err(String::from_str("Could not read the login page"));
            },
        };
        let ps = match extract_qr_params(&scripts) {
            Ok(p) => p,
            Err(e) => {
                return Err(e);
            },
        };
        let link = login_link(&ps);
        let png = match qr_png(link.as_str()) {
            Ok(b) => b,
            Err(e) => {
                return Err(e);
            },
        };
        Ok((base64_encode(&png), self.base_qr_url.clone()))
    }

    /// Where the login status is polled.
    pub fn status_url(&self) -> (r: String)
        ensures
            r@ == self.base_qr_url@ + "?op=checklogin"@,
    {
        self.base_qr_url.clone().concat("?op=checklogin")
    }

    /// Reads a status poll's response: the page that completes the login
    /// where its `status` is 1 and it names a `url`; nothing yet where the
    /// status is anything else or the `url` is missing; an error where the
    /// body is no JSON or its `url` is no string.
    pub fn check_login(&self, body: &str) -> (r: Result<Option<String>, String>)
        ensures
            json_field_of(body@, "status"@) is None ==> r is Err,
            json_field_of(body@, "status"@) == Some(FieldView::Int(1)) ==> match json_field_of(
                body@,
                "url"@,
            ) {
                Some(FieldView::Str(u)) => r is Ok && r->Ok_0 is Some && r->Ok_0->Some_0@
                    == COMPLETION_BASE@ + query_tail(u),
                Some(FieldView::Absent) => r is Ok && r->Ok_0 is None,
                _ => r is Err,
            },
            json_field_of(body@, "status"@) is Some && json_field_of(body@, "status"@) != Some(
                FieldView::Int(1),
            ) ==> r is Ok && r->Ok_0 is None,
    {
        match json_field(body, "status") {
            Err(e) => Err(e),
            Ok(JsonField::Int(c)) => {
                if c != 1 {
                    return Ok(None);
                }
                match json_field(body, "url") {
                    Ok(JsonField::Str(u)) => Ok(Some(completion_url(u.as_str()))),
                    Ok(JsonField::Absent) => Ok(None),
                    Ok(_) => Err(String::from_str("the login status names no url")),
                    Err(e) => Err(e),
                }
            },
            Ok(_) => Ok(None),
        }
    }
}

/// The length of the `name=value` part of a `Set-Cookie` value: up to its
/// first `;`.
pub open spec fn pair_len(s: Seq<char>) -> nat
    decreases s.len(),
{
    if s.len() == 0 || s[0] == ';' {
        0
    } else {
        1 + pair_len(s.drop_first())
    }
}

/// The `name=value` parts of `Set-Cookie` values joined by `; `.
pub open spec fn cookie_line(vs: Seq<Seq<char>>) -> Seq<char>
    decreases vs.len(),
{
    if vs.len() == 0 {
        Seq::empty()
    } else if vs.len() == 1 {
        vs[0].take(pair_len(vs[0]) as int)
    } else {
        cookie_line(vs.drop_last()) + "; "@ + vs.last().take(pair_len(vs.last()) as int)
    }
}

/// The cookie of a completed login, from the `Set-Cookie` values of the
/// completion page: each one's `name=value` part, joined by `; `.
pub fn session_cookie(set_cookies: &Vec<String>) -> (r: String)
    ensures
        r@ == cookie_line(views(set_cookies@)),
{
    let ghost vs = views(set_cookies@);
    let mut r = String::new();
    let mut i: usize = 0;
    assert(vs.take(0) =~= Seq::<Seq<char>>::empty());
    while i < set_cookies.len()
        invariant
            i <= set_cookies.len(),
            vs == views(set_cookies@),
            r@ == cookie_line(vs.take(i as int)),
        decreases set_cookies.len() - i,
    {
        let c = set_cookies[i].as_str();
        let v = chars_of(c);
        let mut k: usize = 0;
        assert(c@.skip(0) =~= c@);
        while k < v.len() && v[k] != ';'
            invariant
                v@ == c@,
                k <= v.len(),
                pair_len(c@) == k + pair_len(c@.skip(k as int)),
            decreases v.len() - k,
        {
            assert(c@.skip(k as int).drop_first() =~= c@.skip(k + 1));
            k = k + 1;
        }
        assert(pair_len(c@.skip(k as int)) == 0);
        let ghost t = vs.take(i + 1);
        assert(t.drop_last() =~= vs.take(i as int));
        assert(t.last() == c@);
        if i > 0 {
            r = r.concat("; ");
        } else {
            assert(t[0] == t.last());
        }
        r = r.concat(c.substring_char(0, k));
        assert(c@.subrange(0, k as int) =~= c@.take(k as int));
        assert(r@ =~= cookie_line(t));
        i = i + 1;
    }
    assert(vs.take(set_cookies.len() as int) =~= vs);
    r
}

} // verus!
