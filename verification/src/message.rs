//! Building outgoing messages from text, @-mentions, images and line breaks,
//! written as CQ codes.

use vstd::prelude::*;
use vstd::string::StringExecFns;

use crate::text::{push_char, chars_of, decimal, find_exec, lemma_find_from, occurs_at, push_decimal};
use crate::Msg;

verus! {

/// Values that can be taken as message text: string slices and strings.
pub trait IntoText {
    /// The characters this value stands for.
    spec fn text_view(&self) -> Seq<char>;

    /// This value as an owned string.
    fn into_text(self) -> (s: String)
        ensures
            s@ == self.text_view(),
    ;
}

impl<'a> IntoText for &'a str {
    open spec fn text_view(&self) -> Seq<char> {
        (**self)@
    }

    fn into_text(self) -> (s: String) {
        self.to_owned()
    }
}

impl IntoText for String {
    open spec fn text_view(&self) -> Seq<char> {
        self@
    }

    fn into_text(self) -> (s: String) {
        self
    }
}

impl<'a> IntoText for &'a String {
    open spec fn text_view(&self) -> Seq<char> {
        (**self)@
    }

    fn into_text(self) -> (s: String) {
        self.clone()
    }
}

impl IntoText for char {
    open spec fn text_view(&self) -> Seq<char> {
        seq![*self]
    }

    fn into_text(self) -> (s: String) {
        let mut s = String::new();
        push_char(&mut s, self);
        assert(s@ =~= seq![self]);
        s
    }
}

impl IntoText for Box<str> {
    open spec fn text_view(&self) -> Seq<char> {
        (**self)@
    }

    fn into_text(self) -> (s: String) {
        let t: &str = &*self;
        t.to_owned()
    }
}

impl<'a> IntoText for std::borrow::Cow<'a, str> {
    open spec fn text_view(&self) -> Seq<char> {
        self@
    }

    fn into_text(self) -> (s: String) {
        match self {
            std::borrow::Cow::Borrowed(b) => b.to_owned(),
            std::borrow::Cow::Owned(o) => o,
        }
    }
}

/// The CQ code that mentions the user `user_id`: `[CQ:at,qq=<user_id>]`.
pub open spec fn at_code(user_id: u64) -> Seq<char> {
    "[CQ:at,qq="@ + decimal(user_id as nat) + "]"@
}

/// `q` occurs somewhere in `p`.
pub open spec fn contains_text(p: Seq<char>, q: Seq<char>) -> bool {
    exists|j: int| occurs_at(p, q, j)
}

/// The CQ code of an image: a path that contains `http` is sent as a URL,
/// any other as a file.
pub open spec fn image_code(path: Seq<char>) -> Seq<char> {
    if contains_text(path, "http"@) {
        "[CQ:image, url="@ + path + "]"@
    } else {
        "[CQ:image, file="@ + path + "]"@
    }
}

/// The message that a list of parts makes: the parts one after another.
pub open spec fn message_text(parts: Seq<Seq<char>>) -> Seq<char>
    decreases parts.len(),
{
    if parts.len() == 0 {
        seq![]
    } else {
        message_text(parts.drop_last()) + parts.last()
    }
}

/// A message under construction: the list of its parts.
#[derive(Debug)]
pub struct MsgBuilder {
    parts: Vec<String>,
}

impl View for MsgBuilder {
    type V = Seq<Seq<char>>;

    closed spec fn view(&self) -> Seq<Seq<char>> {
        self.parts@.map_values(|p: String| p@)
    }
}

impl Default for MsgBuilder {
    fn default() -> (b: Self)
        ensures
            b@ == Seq::<Seq<char>>::empty(),
    {
        let b = MsgBuilder { parts: Vec::new() };
        assert(b@ =~= Seq::<Seq<char>>::empty());
        b
    }
}

impl MsgBuilder {
    /// Adds `part` after the parts so far.
    fn push_part(self, part: String) -> (b: Self)
        ensures
            b@ == self@.push(part@),
    {
        let mut b = self;
        b.parts.push(part);
        assert(b@ =~= self@.push(part@));
        b
    }

    /// Adds a line break.
    pub fn endl(self) -> (b: Self)
        ensures
            b@ == self@.push(seq!['\n']),
    {
        proof {
            reveal_strlit("\n");
        }
        let nl = String::from_str("\n");
        assert(nl@ =~= seq!['\n']);
        self.push_part(nl)
    }

    /// Adds an @-mention of the user `user_id`.
    pub fn at(self, user_id: u64) -> (b: Self)
        ensures
            b@ == self@.push(at_code(user_id)),
    {
        let mut code = String::from_str("[CQ:at,qq=");
        push_decimal(&mut code, user_id);
        code.append("]");
        self.push_part(code)
    }

    /// Adds plain text.
    pub fn txt<T: IntoText>(self, text: T) -> (b: Self)
        ensures
            b@ == self@.push(text.text_view()),
    {
        let t = text.into_text();
        self.push_part(t)
    }

    /// Adds an image, by URL when the path contains `http`, else by file.
    pub fn image<T: IntoText>(self, path: T) -> (b: Self)
        ensures
            b@ == self@.push(image_code(path.text_view())),
    {
        let path_str = path.into_text();
        let pc = chars_of(path_str.as_str());
        let http = chars_of("http");
        proof {
            lemma_find_from(pc@, http@, 0);
        }
        let is_url = find_exec(&pc, &http, 0).is_some();
        assert(is_url == contains_text(path_str@, "http"@)) by {
            if contains_text(path_str@, "http"@) {
                let j = choose|j: int| occurs_at(path_str@, "http"@, j);
                assert(occurs_at(pc@, http@, j));
            }
        }
        let mut code = if is_url {
            String::from_str("[CQ:image, url=")
        } else {
            String::from_str("[CQ:image, file=")
        };
        code.append(path_str.as_str());
        code.append("]");
        self.push_part(code)
    }

    /// All parts joined in the order they were added.
    fn joined(&self) -> (s: String)
        ensures
            s@ == message_text(self@),
    {
        let mut s = String::new();
        let mut i: usize = 0;
        while i < self.parts.len()
            invariant
                i <= self.parts@.len(),
                self@ == self.parts@.map_values(|p: String| p@),
                s@ == message_text(self@.take(i as int)),
            decreases self.parts@.len() - i,
        {
            s.append(self.parts[i].as_str());
            assert(self@.take(i + 1).drop_last() =~= self@.take(i as int));
            i = i + 1;
        }
        assert(self@.take(i as int) =~= self@);
        s
    }

    /// Whether the message holds a NUL character, which a message cannot carry.
    pub fn contains_nul(&self) -> (r: bool)
        ensures
            r == message_text(self@).contains('\0'),
    {
        let t = self.joined();
        let cs = chars_of(t.as_str());
        let mut i: usize = 0;
        while i < cs.len()
            invariant
                cs@ == message_text(self@),
                i <= cs@.len(),
                forall|j: int| 0 <= j < i ==> cs@[j] != '\0',
            decreases cs@.len() - i,
        {
            if cs[i] == '\0' {
                return true;
            }
            i = i + 1;
        }
        false
    }

    /// The message: all parts joined in the order they were added. A message
    /// cannot carry a NUL character (see `contains_nul`).
    pub fn build(self) -> (s: String)
        requires
            !message_text(self@).contains('\0'),
        ensures
            s@ == message_text(self@),
    {
        self.joined()
    }
}

impl Msg {
    /// A message that starts with the text `text`.
    pub fn new<T: IntoText>(text: T) -> (b: MsgBuilder)
        ensures
            b@ == seq![text.text_view()],
    {
        MsgBuilder::default().txt(text)
    }

    /// A message that starts with an @-mention of `user_id`.
    pub fn at(user_id: u64) -> (b: MsgBuilder)
        ensures
            b@ == seq![at_code(user_id)],
    {
        MsgBuilder::default().at(user_id)
    }

    /// A message that starts with the text `text`.
    pub fn txt<T: IntoText>(text: T) -> (b: MsgBuilder)
        ensures
            b@ == seq![text.text_view()],
    {
        MsgBuilder::default().txt(text)
    }

    /// A message that starts with an image.
    pub fn image<T: IntoText>(path: T) -> (b: MsgBuilder)
        ensures
            b@ == seq![image_code(path.text_view())],
    {
        MsgBuilder::default().image(path)
    }
}

/// Text keeps its characters whatever carries it: a string slice, a string,
/// a borrowed string, a boxed slice or a copy-on-write string stand for their
/// own characters, and a character for itself alone.
pub proof fn law_text_view_is_the_text(
    slice: &str,
    owned: String,
    borrowed: &String,
    boxed: Box<str>,
    cow: std::borrow::Cow<str>,
    c: char,
)
    ensures
        <&str as IntoText>::text_view(&slice) == slice@,
        <String as IntoText>::text_view(&owned) == owned@,
        <&String as IntoText>::text_view(&borrowed) == borrowed@,
        <Box<str> as IntoText>::text_view(&boxed) == (*boxed)@,
        <std::borrow::Cow<str> as IntoText>::text_view(&cow) == match cow {
            std::borrow::Cow::Borrowed(b) => b@,
            std::borrow::Cow::Owned(o) => o@,
        },
        <char as IntoText>::text_view(&c) == seq![c],
{
}

} // verus!
