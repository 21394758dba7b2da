//! The decisions of a notification through the messaging webhook: whether
//! to send at all, where, and how to read the two responses.
use vstd::prelude::*;
use crate::config::WeComConfig;
use crate::json::{json_field, json_field_of, FieldView, JsonField};
use crate::task::local_now;

verus! {

pub open spec fn token_url_spec(corpid: Seq<char>, secret: Seq<char>) -> Seq<char> {
    "https://qyapi.weixin.qq.com/cgi-bin/gettoken?corpid="@ + corpid + "&corpsecret="@ + secret
}

pub open spec fn send_url_spec(token: Seq<char>) -> Seq<char> {
    "https://qyapi.weixin.qq.com/cgi-bin/message/send?access_token="@ + token
}

pub open spec fn message_spec(title: Seq<char>, content: Seq<char>, time: Seq<char>) -> Seq<char> {
    "【Checkin Magic】\n"@ + title + "\n----------------\n"@ + content + "\nTime: "@ + time
}

/// The first request of a notification: `None` where notifications are
/// switched off, which is then a success with no request at all; else the
/// URL that trades the tenant id and secret for an access token.
pub fn token_request(cfg: &WeComConfig) -> (r: Option<String>)
    ensures
        !cfg.enable ==> r is None,
        cfg.enable ==> r is Some && r->Some_0@ == token_url_spec(cfg.corpid@, cfg.secret@),
{
    if !cfg.enable {
        return None;
    }
    let url = String::from_str("https://qyapi.weixin.qq.com/cgi-bin/gettoken?corpid=");
    let url = url.concat(cfg.corpid.as_str());
    let url = url.concat("&corpsecret=");
    Some(url.concat(cfg.secret.as_str()))
}

/// Reads the token response: the URL to send the message to, or why not.
pub fn send_request(token_body: &str) -> (r: Result<String, String>)
    ensures
        match json_field_of(token_body@, "access_token"@) {
            Some(FieldView::Str(t)) => r is Ok && r->Ok_0@ == send_url_spec(t),
            Some(_) => r is Err && r->Err_0@ == "Failed to get access token"@,
            None => r is Err,
        },
{
    match json_field(token_body, "access_token") {
        Ok(JsonField::Str(t)) => {
            let url = String::from_str("https://qyapi.weixin.qq.com/cgi-bin/message/send?access_token=");
            Ok(url.concat(t.as_str()))
        },
        Ok(_) => Err(String::from_str("Failed to get access token")),
        Err(e) => Err(e),
    }
}

/// The text of a message: a fixed banner, the title, a rule, the content
/// and the time it was sent.
pub fn message_text(title: &str, content: &str, time: &str) -> (r: String)
    ensures
        r@ == message_spec(title@, content@, time@),
{
    let m = String::from_str("【Checkin Magic】\n");
    let m = m.concat(title);
    let m = m.concat("\n----------------\n");
    let m = m.concat(content);
    let m = m.concat("\nTime: ");
    m.concat(time)
}

/// The text of a message sent now, stamped with the local time.
pub fn notification_text(title: &str, content: &str) -> (r: String)
    ensures
        exists|time: Seq<char>| r@ == #[trigger] message_spec(title@, content@, time),
{
    let time = local_now("%Y-%m-%d %H:%M:%S");
    message_text(title, content, time.as_str())
}

/// Reads the send response: a success exactly where its `errcode` is 0;
/// else an error that carries the whole response.
pub fn send_outcome(send_body: &str) -> (r: Result<(), String>)
    ensures
        match json_field_of(send_body@, "errcode"@) {
            Some(FieldView::Int(c)) => (c == 0 <==> r is Ok) && (c != 0 ==> r->Err_0@ == "WeCom Error: "@ + send_body@),
            Some(_) => r is Err && r->Err_0@ == "WeCom Error: "@ + send_body@,
            None => r is Err,
        },
{
    match json_field(send_body, "errcode") {
        Ok(JsonField::Int(c)) => {
            if c == 0 {
                Ok(())
            } else {
                Err(String::from_str("WeCom Error: ").concat(send_body))
            }
        },
        Ok(_) => Err(String::from_str("WeCom Error: ").concat(send_body)),
        Err(e) => Err(e),
    }
}

} // verus!
