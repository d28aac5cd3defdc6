use luo9_sdk::message::MsgBuilder;
use luo9_sdk::Msg;

#[test]
fn test_new_msg() {
    // &str still works
    let msg1 = Msg::txt("hello world")
        .at(123321)
        .endl()
        .image("https://example.com/image.jpg")
        .build();

    println!(">>>> msg1 : {:?}", msg1);

    // String works too
    let text = String::from("hello from String");
    let img_path = String::from("local_image.png");

    let msg2 = Msg::txt(text).at(456654).endl().image(img_path).build();

    println!(">>>> msg2 : {:?}", msg2);
}

#[test]
fn message_parts_join_in_order() {
    let msg = Msg::txt("hello world")
        .at(123321)
        .endl()
        .image("https://example.com/image.jpg")
        .build();
    assert_eq!(
        msg,
        "hello world[CQ:at,qq=123321]\n[CQ:image, url=https://example.com/image.jpg]"
    );
    let msg2 = Msg::txt(String::from("hello from String"))
        .at(456654)
        .endl()
        .image(String::from("local_image.png"))
        .build();
    assert_eq!(
        msg2,
        "hello from String[CQ:at,qq=456654]\n[CQ:image, file=local_image.png]"
    );
}

#[test]
fn at_writes_decimal_ids() {
    assert_eq!(Msg::at(0).build(), "[CQ:at,qq=0]");
    assert_eq!(Msg::at(7).build(), "[CQ:at,qq=7]");
    assert_eq!(Msg::at(10).build(), "[CQ:at,qq=10]");
    assert_eq!(
        Msg::at(u64::MAX).build(),
        format!("[CQ:at,qq={}]", u64::MAX)
    );
}

#[test]
fn image_by_url_or_file() {
    assert_eq!(
        Msg::image("http://a/b.png").build(),
        "[CQ:image, url=http://a/b.png]"
    );
    assert_eq!(
        Msg::image("pics/https_cat.png").build(),
        "[CQ:image, url=pics/https_cat.png]"
    );
    assert_eq!(Msg::image("htt.png").build(), "[CQ:image, file=htt.png]");
    assert_eq!(Msg::image("").build(), "[CQ:image, file=]");
    let p = String::from("c:/x.jpg");
    assert_eq!(Msg::image(&p).build(), "[CQ:image, file=c:/x.jpg]");
}

#[test]
fn new_and_empty_builder() {
    assert_eq!(Msg::new("a").txt("b").endl().build(), "ab\n");
    assert_eq!(MsgBuilder::default().build(), "");
    assert_eq!(MsgBuilder::default().endl().endl().build(), "\n\n");
}

#[test]
fn nul_detection() {
    assert!(Msg::txt("a\0b").contains_nul());
    assert!(Msg::txt("a").endl().txt("\0").contains_nul());
    assert!(!Msg::txt("ab").at(1).contains_nul());
    assert!(!MsgBuilder::default().contains_nul());
}

#[test]
fn more_text_sources() {
    assert_eq!(Msg::txt('x').txt('状').build(), "x状");
    let b: Box<str> = "boxed".into();
    assert_eq!(Msg::txt(b).build(), "boxed");
    let c1: std::borrow::Cow<str> = std::borrow::Cow::Borrowed("cow");
    let c2: std::borrow::Cow<str> = std::borrow::Cow::Owned("owned".to_string());
    assert_eq!(Msg::txt(c1).txt(c2).build(), "cowowned");
    assert_eq!(Msg::image(std::borrow::Cow::Borrowed("http://x")).build(), "[CQ:image, url=http://x]");
}
