use chatgpt_bot::config::{
    Config, CQHandlerConfig, HandlerConfig, KPHandlerConfig, LogConfig, OpenAIConfig,
    RateLimitConfig, ReplyConfig, ServerType,
};
use chatgpt_bot::error::ServerError;
use chatgpt_bot::handler::kp::{
    canned_replies, handle_msg_step, kp_endpoint, message_blocked, message_body, plan_text_msg,
    plan_text_msg_with, route_event, EventRoute, TextPlan,
};
use chatgpt_bot::handler::{socket_keeps_reading, user_agent_label, SocketEvent};
use chatgpt_bot::model::kp::{KPRequest, Request, RequestData, Response};
use chatgpt_bot::model::openai::question::Question;
use chatgpt_bot::model::openai::{Message, Role};
use chatgpt_bot::model::ServerRequest;
use chatgpt_bot::openai::{
    chat_question, draw_picks, finish_completion, finish_reply, is_blacklisted, process_choice,
    process_choice_with, rewrite, ReplyCache,
};
use chatgpt_bot::table::ReplyTable;

fn s(x: &str) -> String {
    x.to_string()
}

fn table(entries: &[(&str, &[&str])]) -> ReplyTable {
    let mut t = ReplyTable::new();
    for (k, vs) in entries {
        t.insert(s(k), vs.iter().map(|v| s(v)).collect());
    }
    t
}

fn reply_config() -> ReplyConfig {
    ReplyConfig {
        prefix: s("#"),
        cache_per_question: 1,
        blacklist: vec![s("钱包"), s("chatgpt")],
        replace: table(&[("AI语言模型", &["人工智障"]), ("语言模型", &[""])]),
        text: table(&[("hello", &["你好呀", "hello"]), ("卧槽", &["不要说脏话哟"])]),
        static_picture: ReplyTable::new(),
        gif_picture: ReplyTable::new(),
    }
}

fn request(event_type: u32, content: &str) -> Request {
    Request {
        event_type,
        event_desc: s("desc"),
        account_wxid: s("robot"),
        data: RequestData {
            SvrId: s("1"),
            LocalId: 2,
            PrefixId: s("p"),
            createtime: 3,
            msgtype: 1,
            subtype: 0,
            isSender: 0,
            content: s(content),
            from_wxid: s("friend"),
            from_name: s("Friend"),
            final_from_wxid: s("friend"),
            final_from_name: s("Friend"),
            final_displayname: s("Friend"),
            to_wxid: s("robot"),
            to_name: s("Robot"),
            filepath: s(""),
            atuserlist: vec![],
        },
        pid: 4,
        hwnd: 5,
    }
}

#[test]
fn event_routes() {
    assert!(matches!(route_event(false, 1100), Ok(EventRoute::Skip)));
    assert!(matches!(route_event(false, 7), Ok(EventRoute::Skip)));
    assert!(matches!(route_event(true, 1100), Ok(EventRoute::Text)));
    match route_event(true, 42) {
        Err(e) => {
            assert_eq!(e.message(), "argument error : unexpedted event_type: 42");
            assert_eq!(e.status_code(), 400);
        }
        Ok(_) => panic!("an unknown event type is refused"),
    }
}

#[test]
fn rate_limited_events() {
    let cfg = RateLimitConfig { capacity: 1, quantum: 1, rate: 1 };
    let limiter = cfg.ratelimiter();
    assert_eq!(limiter.settings(), (1, 1, 1));
    let other = RateLimitConfig { capacity: 10, quantum: 2, rate: 100 }.ratelimiter();
    assert_eq!(other.settings(), (10, 2, 100));
    let mut taken = 0;
    for _ in 0..5 {
        match handle_msg_step(&limiter, 1100) {
            Ok(EventRoute::Text) => taken += 1,
            Ok(EventRoute::Skip) => {}
            Err(_) => panic!("a text event is never refused"),
        }
    }
    assert!(taken <= 2);
    match handle_msg_step(&limiter, 3) {
        Ok(EventRoute::Skip) => {}
        Err(e) => assert_eq!(e.message(), "argument error : unexpedted event_type: 3"),
        Ok(EventRoute::Text) => panic!("event 3 is no text"),
    }
}

#[test]
fn text_plans() {
    let cfg = reply_config();
    assert!(matches!(
        plan_text_msg_with("hello", &cfg, true, ServerType::KPBackend, 0),
        TextPlan::Ignore
    ));
    match plan_text_msg_with("  #hello \n", &cfg, true, ServerType::KPBackend, 1) {
        TextPlan::Reply(x) => assert_eq!(x, "hello"),
        other => panic!("{:?}", other),
    }
    match plan_text_msg_with("#hello", &cfg, true, ServerType::KPBackend, 0) {
        TextPlan::Reply(x) => assert_eq!(x, "你好呀"),
        other => panic!("{:?}", other),
    }
    assert!(matches!(
        plan_text_msg_with("#hello", &cfg, true, ServerType::CQBackend, 0),
        TextPlan::Ignore
    ));
    match plan_text_msg_with("\u{3000}#你是谁 ", &cfg, true, ServerType::CQBackend, 0) {
        TextPlan::Ask(q) => assert_eq!(q, "你是谁"),
        other => panic!("{:?}", other),
    }
    assert!(matches!(
        plan_text_msg_with("#你是谁", &cfg, false, ServerType::KPBackend, 0),
        TextPlan::Ignore
    ));
    for _ in 0..20 {
        match plan_text_msg("#hello", &cfg, true, ServerType::KPBackend) {
            TextPlan::Reply(x) => assert!(x == "你好呀" || x == "hello"),
            other => panic!("{:?}", other),
        }
    }
    assert!(matches!(
        plan_text_msg_with("#我的钱包在哪", &cfg, true, ServerType::KPBackend, 0),
        TextPlan::Ignore
    ));
    assert!(matches!(
        plan_text_msg("#问问 chatgpt", &cfg, true, ServerType::KPBackend),
        TextPlan::Ignore
    ));
    assert!(message_blocked("#钱包", &cfg));
    assert!(!message_blocked("钱包", &cfg));
    assert!(!message_blocked("#hello", &cfg));
    assert_eq!(message_body(" #abc ", "#"), Some("abc"));
    assert_eq!(message_body("abc", "#"), None);
    assert_eq!(canned_replies("#卧槽", &cfg).unwrap(), &vec![s("不要说脏话哟")]);
    assert!(canned_replies("#hi", &cfg).is_none());
}

#[test]
fn answers_are_processed() {
    let cfg = reply_config();
    let p = process_choice_with("我是一个AI语言模型", &cfg, &vec![0, 0]);
    assert_eq!(p.reply, "我是一个人工智障");
    assert!(!p.cacheable);
    let p = process_choice_with("你的钱包呢", &cfg, &vec![0, 0]);
    assert_eq!(p.reply, "");
    assert!(!p.cacheable);
    let p = process_choice_with("\n\n第一段\n\n第二段\n\n\n第三段", &cfg, &vec![0, 0]);
    assert_eq!(p.reply, "第一段\r第二段\r\n第三段");
    assert!(p.cacheable);
    let long: String = "字".repeat(34) + "\n\nrest";
    let p = process_choice_with(&long, &cfg, &vec![0, 0]);
    assert_eq!(p.reply, long);
    assert!(!p.cacheable);
    let short: String = "字".repeat(33) + "\n\nrest";
    let p = process_choice_with(&short, &cfg, &vec![0, 0]);
    assert_eq!(p.reply, "rest");
    assert!(p.cacheable);
    let p = process_choice("语言模型很好", &cfg);
    assert_eq!(p.reply, "很好");
    assert!(is_blacklisted("use chatgpt", &cfg.blacklist));
    assert!(!is_blacklisted("use ChatGPT", &cfg.blacklist));
    let picks = draw_picks(&cfg.replace);
    assert_eq!(picks, vec![0, 0]);
    assert_eq!(rewrite("AI语言模型和语言模型", &cfg.replace, &picks), "人工智障和");
}

#[test]
fn finishing_replies() {
    let p = finish_reply(s("a\n\nb"));
    assert_eq!(p.reply, "b");
    assert!(p.cacheable);
    let p = finish_reply(s("no break"));
    assert_eq!(p.reply, "no break");
    assert!(!p.cacheable);
}

#[test]
fn completion_fills_the_cache() {
    let cfg = reply_config();
    let mut cache = ReplyCache::new();
    assert!(cache.cached_answer("q", 1).is_none());
    let replies = finish_completion(
        &mut cache,
        "q",
        &vec![s("intro\n\nanswer"), s("plain answer"), s("x\n\ny")],
        &cfg,
    );
    assert_eq!(replies, vec![s("answer"), s("plain answer"), s("y")]);
    assert_eq!(cache.get("q").unwrap(), &vec![s("answer"), s("y")]);
    assert!(cache.get("other").is_none());
    assert!(cache.get("q").unwrap().iter().all(|a| !a.contains("\n\n")));
    for _ in 0..20 {
        let a = cache.cached_answer("q", 2).unwrap();
        assert!(a == "answer" || a == "y");
    }
    assert!(cache.cached_answer("q", 3).is_none());
    assert_eq!(cache.cached_answer_with("q", 2, 1), Some(s("y")));
    assert_eq!(cache.cached_answer_with("q", 0, 0), Some(s("answer")));
}

#[test]
fn cache_read_after_write() {
    let mut cache = ReplyCache::new();
    cache.add_reply("a", s("1"));
    cache.add_reply("b", s("2"));
    cache.add_reply("a", s("3"));
    assert_eq!(cache.get("a").unwrap(), &vec![s("1"), s("3")]);
    assert_eq!(cache.get("b").unwrap(), &vec![s("2")]);
    assert!(cache.get("c").is_none());
}

#[test]
fn tables_keep_one_entry_per_key() {
    let mut t = ReplyTable::new();
    t.insert(s("k"), vec![s("1")]);
    t.insert(s("j"), vec![s("2")]);
    t.insert(s("k"), vec![s("3"), s("4")]);
    assert_eq!(t.len(), 2);
    assert_eq!(t.key_at(0), "k");
    assert_eq!(t.values_at(0), &vec![s("3"), s("4")]);
    t.append(s("j"), s("5"));
    t.append(s("new"), s("6"));
    assert_eq!(t.get("j").unwrap(), &vec![s("2"), s("5")]);
    assert_eq!(t.get("new").unwrap(), &vec![s("6")]);
    assert_eq!(t.len(), 3);
}

#[test]
fn errors_answer_with_status_and_text() {
    let cases = vec![
        (ServerError::ArgumentError(s("x")), 400, "argument error : x"),
        (ServerError::ConfigError(s("x")), 500, "config error : x"),
        (ServerError::JsonParseError(s("Invalid parameter.")), 400, "json parse error : Invalid parameter."),
        (ServerError::ServerError, 500, "Internal Server Error"),
        (ServerError::IOError(s("x")), 500, "io error : x"),
        (ServerError::Unknown(s("boom")), 500, "boom"),
    ];
    for (e, code, text) in cases {
        assert_eq!(e.status_code(), code);
        assert_eq!(e.message(), text);
    }
}

#[test]
fn responses() {
    let r = Response::success(Some(s("d")));
    assert_eq!(r.code, 200);
    assert_eq!(r.msg, Some(s("succeed")));
    assert_eq!(r.data, Some(s("d")));
    let r = Response::fail(503, s("down"));
    assert_eq!(r.code, 503);
    assert_eq!(r.msg, Some(s("down")));
    assert_eq!(r.data, None);
    let r = Response::default();
    assert_eq!(r.code, 0);
    assert!(r.msg.is_none() && r.data.is_none());
}

#[test]
fn questions() {
    let q = Question::new(s("m"), s("hi"));
    assert_eq!(q.model, "m");
    assert_eq!(q.messages, vec![Message { role: Role::User, content: s("hi") }]);
    let q = Question::new_with_default();
    assert_eq!(q.model, "gpt-3.5-turbo");
    assert!(q.messages.is_empty());
    let q = q.set_content(s("a")).set_content(s("b"));
    assert_eq!(q.messages.len(), 2);
    assert_eq!(q.messages[1].content, "b");
    let q = chat_question("你好");
    assert_eq!(q, Question::new(s("gpt-3.5-turbo"), s("你好")));
}

#[test]
fn requests() {
    let r = ServerRequest::from_payload(ServerType::CQBackend, request(1100, "x"));
    assert!(matches!(r, ServerRequest::KPRequest(_)));
    let r = ServerRequest::from_payload(ServerType::KPBackend, request(1, "y"));
    let k = r.into_kp_request();
    assert_eq!(k.event_type, 1);
    assert_eq!(k.data.content, "y");
    let k = KPRequest::text("friend", "robot", "msg");
    assert_eq!(k.api, "K10033");
    assert_eq!(k.fromWxid, "friend");
    assert_eq!(k.robotWxid, "robot");
    assert_eq!(k.msg, "msg");
}

#[test]
fn addresses() {
    let cfg = Config {
        log: LogConfig { level: s("debug"), with_thread_ids: false, with_thread_names: false },
        ip: s("0.0.0.0"),
        http_port: 3000,
        server_name: s("chatgpt-bot"),
        server_type: ServerType::KPBackend,
        rate_limit: RateLimitConfig { capacity: 1, quantum: 1, rate: 1 },
        handler: HandlerConfig {
            kp: KPHandlerConfig { ip: s("127.0.0.1"), port: 2022 },
            cq: CQHandlerConfig { ip: s("127.0.0.1"), port: 5700 },
        },
        reply: reply_config(),
        openai: OpenAIConfig {
            open: true,
            stream: true,
            api_key: s("key"),
            api_domain: s("https://api.openai.com"),
            max_tokens: 300,
        },
    };
    assert_eq!(cfg.listen_address(), "0.0.0.0:3000");
    assert_eq!(cfg.log.env_filter(), "debug,tower=debug,tower_http=debug");
    assert_eq!(kp_endpoint(&cfg.handler.kp), "http://127.0.0.1:2022/KP");
    assert_eq!(
        cfg.openai.chat_completions_endpoint(),
        "https://api.openai.com/v1/chat/completions"
    );
    assert_eq!(cfg.openai.authorization_header(), "Authorization: Bearer key");
}

#[test]
fn websocket_steps() {
    assert!(socket_keeps_reading(Some(SocketEvent::Text)));
    assert!(socket_keeps_reading(Some(SocketEvent::Binary)));
    assert!(socket_keeps_reading(Some(SocketEvent::Ping)));
    assert!(socket_keeps_reading(Some(SocketEvent::Pong)));
    assert!(!socket_keeps_reading(Some(SocketEvent::Close)));
    assert!(!socket_keeps_reading(None));
    assert_eq!(user_agent_label(Some(s("curl/8"))), "curl/8");
    assert_eq!(user_agent_label(None), "Unknown browser");
}
