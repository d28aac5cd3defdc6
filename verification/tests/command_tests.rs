use std::cell::Cell;

use luo9_sdk::command::{Command, PrefixMode};

fn cmd(name: &str, args: &[&str], raw: &str, has_args: bool) -> Command {
    Command::from_parts(
        name.to_string(),
        args.iter().map(|a| a.to_string()).collect(),
        raw.to_string(),
        has_args,
    )
}

#[test]
fn test_status() {
    // What the parser gives for "epic[CQ:at,qq=123123321321]状态" with the name "epic".
    let cmd = cmd("epic", &["[CQ:at,qq=123123321321]状态"], "[CQ:at,qq=123123321321]状态", true);
    let ran = Cell::new(false);
    cmd.on_pattern("[CQ:at,qq={qq}]{content}", |caps, args| {
        let qq = caps.get("qq").unwrap();
        println!("提取到 QQ: {}", qq);
        let content = caps.get("content").unwrap();
        println!("提取到 内容: {}", content);
        if let Some(subcmd) = args.first() {
            match subcmd.as_str() {
                "状态" => println!("执行状态查询"),
                _ => {}
            }
        }
        assert_eq!(qq, "123123321321");
        assert_eq!(content, "状态");
        ran.set(true);
    });
    assert!(ran.get());
}

#[test]
fn test_only_command() {
    // What the parser gives for "epic" with the name "epic": no arguments.
    let cmd = cmd("epic", &[], "", false);
    let ran = Cell::new(false);
    cmd.on("epic", |_| {
        println!("epic");
        ran.set(true);
    });
    assert!(!ran.get());
}

#[test]
fn accessors() {
    let c = cmd("echo", &["hello", "world"], " hello world", true);
    assert_eq!(c.name(), "echo");
    assert_eq!(c.args_raw(), " hello world");
    assert!(c.has_args());
    assert_eq!(c.args_count(), 2);
    assert_eq!(c.arg_at(0), Some("hello"));
    assert_eq!(c.arg_at(1), Some("world"));
    assert_eq!(c.arg_at(2), None);
    assert_eq!(c.args(), &["hello".to_string(), "world".to_string()]);
    assert_eq!(c.args_from(1), &["world".to_string()]);
    assert!(c.args_from(2).is_empty());
}

#[test]
fn chain_runs_only_first_match() {
    let c = cmd("epic", &["提醒关闭", "x"], "提醒关闭 x", true);
    let hits = Cell::new(0u32);
    let got = std::cell::RefCell::new(Vec::new());
    c.on("提醒开启", |_| hits.set(hits.get() + 1))
        .on("提醒关闭", |rest| {
            hits.set(hits.get() + 10);
            got.borrow_mut().extend(rest.iter().cloned());
        })
        .on("提醒关闭", |_| hits.set(hits.get() + 100))
        .otherwise(|| hits.set(hits.get() + 1000));
    assert_eq!(hits.get(), 10);
    assert_eq!(*got.borrow(), vec!["x".to_string()]);
}

#[test]
fn otherwise_runs_when_nothing_matched() {
    let c = cmd("epic", &["状态"], "状态", true);
    let hits = Cell::new(0u32);
    let mut m = c.on("a", |_| hits.set(1)).on_pattern("b{x}", |_, _| hits.set(2));
    m.otherwise(|| hits.set(3));
    assert_eq!(hits.get(), 3);
}

#[test]
fn handle_runs_without_arguments() {
    let bare = cmd("epic", &[], "", false);
    let hits = Cell::new(0u32);
    bare.handle(|| hits.set(hits.get() + 1))
        .on("x", |_| hits.set(hits.get() + 10))
        .otherwise(|| hits.set(hits.get() + 100));
    assert_eq!(hits.get(), 1);

    let with_args = cmd("epic", &["x"], "x", true);
    let hits2 = Cell::new(0u32);
    with_args
        .handle(|| hits2.set(hits2.get() + 1))
        .on("x", |_| hits2.set(hits2.get() + 10));
    assert_eq!(hits2.get(), 10);
}

#[test]
fn on_pattern_chain() {
    let c = cmd("add", &["3+4", "now"], "3+4 now", true);
    let sum = Cell::new(0i64);
    c.on("3+4", |_| sum.set(-1))
        .on_pattern("{a}+{b}", |caps, rest| {
            let a: i64 = caps.get("a").unwrap().parse().unwrap();
            let b: i64 = caps.get("b").unwrap().parse().unwrap();
            assert_eq!(rest, &["now".to_string()]);
            sum.set(a + b);
        });
    assert_eq!(sum.get(), -1);

    let c2 = cmd("add", &["3+4"], "3+4", true);
    c2.on_pattern("{a}+{b}", |caps, rest| {
        let a: i64 = caps.get("a").unwrap().parse().unwrap();
        let b: i64 = caps.get("b").unwrap().parse().unwrap();
        assert!(rest.is_empty());
        sum.set(a + b);
    });
    assert_eq!(sum.get(), 7);
}

#[test]
fn prefix_mode_codes() {
    assert_eq!(PrefixMode::Required('/').code(), (0, '/'));
    assert_eq!(PrefixMode::Optional('#').code(), (1, '#'));
    assert_eq!(PrefixMode::NoPrefix.code(), (2, '\0'));
}
