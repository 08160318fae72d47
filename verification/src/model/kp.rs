//! The KP WeChat robot's messages.

use vstd::prelude::*;

verus! {

/// An event the KP robot reports.
#[derive(Debug)]
pub struct Request {
    pub event_type: u32,
    pub event_desc: String,
    pub account_wxid: String,
    pub data: RequestData,
    pub pid: u32,
    pub hwnd: u32,
}

/// The message an event carries.
#[derive(Debug)]
#[allow(non_snake_case)]
pub struct RequestData {
    pub SvrId: String,
    pub LocalId: u32,
    pub PrefixId: String,
    pub createtime: u64,
    pub msgtype: u8,
    pub subtype: u8,
    pub isSender: u8,
    pub content: String,
    pub from_wxid: String,
    pub from_name: String,
    pub final_from_wxid: String,
    pub final_from_name: String,
    pub final_displayname: String,
    pub to_wxid: String,
    pub to_name: String,
    pub filepath: String,
    pub atuserlist: Vec<String>,
}

/// The bot's answer to the robot.
#[derive(Debug, Clone)]
pub struct Response {
    pub code: u16,
    pub msg: Option<String>,
    pub data: Option<String>,
}

impl Default for Response {
    fn default() -> (r: Response)
        ensures
            r.code == 0,
            r.msg is None,
            r.data is None,
    {
        Response { code: 0, msg: None, data: None }
    }
}

impl Response {
    /// A success answer carrying `data`.
    pub fn success(data: Option<String>) -> (r: Response)
        ensures
            r.code == 200,
            r.msg matches Some(m) && m@ == "succeed"@,
            r.data == data,
    {
        Response { code: 200, msg: Some(String::from_str("succeed")), data }
    }

    /// A failure answer with `code` and `msg`.
    pub fn fail(code: u16, msg: String) -> (r: Response)
        ensures
            r.code == code,
            r.msg == Some(msg),
            r.data is None,
    {
        Response { code, msg: Some(msg), data: None }
    }
}

/// A call of the KP robot's HTTP API.
#[derive(Debug)]
#[allow(non_snake_case)]
pub struct KPRequest<'a> {
    pub api: &'a str,
    pub robotWxid: &'a str,
    pub fromWxid: &'a str,
    pub msg: &'a str,
}

impl<'a> KPRequest<'a> {
    /// The call that sends the text `msg` from robot `robot_wx_id` to the
    /// chat `from_wx_id`: API `K10033`.
    pub fn text(from_wx_id: &'a str, robot_wx_id: &'a str, msg: &'a str) -> (r: KPRequest<'a>)
        ensures
            r.api@ == "K10033"@,
            r.fromWxid == from_wx_id,
            r.robotWxid == robot_wx_id,
            r.msg == msg,
    {
        KPRequest { api: "K10033", robotWxid: robot_wx_id, fromWxid: from_wx_id, msg }
    }
}

} // verus!
