//! Reading what a connection asks for from the text that it sent.

use vstd::prelude::*;
use vstd::string::StringExecFns;

verus! {

/// The most opening brackets in a text that is handed to the JSON parser.
/// The parser descends once for each of them, so this bounds its depth.
pub const MAX_BRACKETS: usize = 256;

/// What a connection asks for.
#[derive(Debug, PartialEq)]
pub enum Request {
    /// To be a painter, under this name and address.
    Painter { name: String, url: String },
    /// To be a viewer.
    Canvas,
    /// The composite image.
    Pixels,
    /// Something the protocol does not know; the text says what was wrong.
    Invalid(String),
    /// Nothing: the frame was no JSON document. The text says what was wrong.
    Malformed(String),
}

/// A request, as plain values.
pub ghost enum RequestView {
    Painter { name: Seq<char>, url: Seq<char> },
    Canvas,
    Pixels,
    Invalid(Seq<char>),
    Malformed(Seq<char>),
}

impl View for Request {
    type V = RequestView;

    open spec fn view(&self) -> RequestView {
        match self {
            Request::Painter { name, url } => RequestView::Painter { name: name@, url: url@ },
            Request::Canvas => RequestView::Canvas,
            Request::Pixels => RequestView::Pixels,
            Request::Invalid(why) => RequestView::Invalid(why@),
            Request::Malformed(why) => RequestView::Malformed(why@),
        }
    }
}

/// The text of an optional string, as a plain value.
pub open spec fn optional_text(value: Option<String>) -> Option<Seq<char>> {
    match value {
        Some(text) => Some(text@),
        None => None,
    }
}

/// The number of opening brackets, `{` and `[`, in `text`.
pub open spec fn brackets(text: Seq<char>) -> nat
    decreases text.len(),
{
    if text.len() == 0 {
        0
    } else if text.last() == '{' || text.last() == '[' {
        brackets(text.drop_last()) + 1
    } else {
        brackets(text.drop_last())
    }
}

/// The words with which the JSON parser refuses `text`, or `None` where it
/// takes `text` for a document.
pub uninterp spec fn json_error(text: Seq<char>) -> Option<Seq<char>>;

/// The text of member `key` of the document `text`, as the JSON parser
/// gives it, or `None` where the document has no such member.
pub uninterp spec fn json_member(text: Seq<char>, key: Seq<char>) -> Option<Seq<char>>;

/// Parses `text` with `jsonic::parse` and, where that gives a document,
/// looks up `key` in it with the document's index operator and reads what
/// is found with `JsonItem::as_str`; where it gives an error, prints the
/// error with its `Display`.
///
/// This is not proved but believed of jsonic: what comes back depends on the
/// two texts alone, so it has the two names above. Nothing is claimed of
/// which texts are documents or of what their members read. The parser
/// calls itself once for every opening bracket that it descends into, and
/// never otherwise, so it comes back from a text with few of them; it is
/// handed no other. The document points into `text` without borrowing it,
/// which is why it does not leave this function.
#[verifier::external_body]
fn member_text(text: &str, key: &str) -> (found: Result<Option<String>, String>)
    requires
        brackets(text@) <= MAX_BRACKETS,
    ensures
        match found {
            Ok(value) => json_error(text@) is None && optional_text(value) == json_member(
                text@,
                key@,
            ),
            Err(why) => json_error(text@) == Some(why@),
        },
{
    match jsonic::parse(text) {
        Ok(item) => Ok(item[key].as_str().map(str::to_owned)),
        Err(error) => Err(error.to_string()),
    }
}

/// What a document asks for whose members `msg`, `?`, `name` and `url` read
/// `msg`, `who`, `name` and `url`.
///
/// `{"msg": "?", "?": "painter"}` asks to paint, `{"msg": "?", "?": "canvas"}`
/// to view, `{"msg": "p"}` for the image. A painter without a name or an
/// address has the empty one.
pub open spec fn interpreted(
    msg: Option<Seq<char>>,
    who: Option<Seq<char>>,
    name: Option<Seq<char>>,
    url: Option<Seq<char>>,
) -> RequestView {
    match msg {
        None => RequestView::Invalid("Invalid message"@),
        Some(msg) => if msg == "?"@ {
            match who {
                None => RequestView::Invalid("Expected field ?"@),
                Some(who) => if who == "painter"@ {
                    RequestView::Painter {
                        name: match name {
                            Some(name) => name,
                            None => Seq::empty(),
                        },
                        url: match url {
                            Some(url) => url,
                            None => Seq::empty(),
                        },
                    }
                } else if who == "canvas"@ {
                    RequestView::Canvas
                } else {
                    RequestView::Invalid(who + " is not a valid ?. Should be painter or canvas"@)
                },
            }
        } else if msg == "p"@ {
            RequestView::Pixels
        } else {
            RequestView::Invalid("Unknown message: "@ + msg)
        },
    }
}

/// What the frame `text` asks for: what its document asks for, where it is
/// one that the parser is handed and takes.
pub open spec fn request_of(text: Seq<char>) -> RequestView {
    if brackets(text) > MAX_BRACKETS {
        RequestView::Malformed("(Cannot parse) too many brackets"@)
    } else {
        match json_error(text) {
            Some(why) => RequestView::Malformed("(Cannot parse) "@ + why),
            None => interpreted(
                json_member(text, "msg"@),
                json_member(text, "?"@),
                json_member(text, "name"@),
                json_member(text, "url"@),
            ),
        }
    }
}

/// Whether `text` is short of brackets enough to be parsed.
pub fn few_brackets(text: &str) -> (few: bool)
    ensures
        few == (brackets(text@) <= MAX_BRACKETS),
{
    let mut count: usize = 0;
    for c in it: text.chars()
        invariant
            it.seq() == text@,
            count == brackets(text@.take(it.index() as int)),
            count <= MAX_BRACKETS,
    {
        assert(text@.take(it.index() + 1).drop_last() =~= text@.take(it.index() as int));
        if c == '{' || c == '[' {
            count += 1;
            if count > MAX_BRACKETS {
                proof {
                    lemma_brackets_grow(text@, it.index() + 1);
                }
                return false;
            }
        }
    }
    assert(text@.take(text@.len() as int) =~= text@);
    true
}

/// A text holds at least as many brackets as each of its beginnings.
proof fn lemma_brackets_grow(text: Seq<char>, len: int)
    requires
        0 <= len <= text.len(),
    ensures
        brackets(text.take(len)) <= brackets(text),
    decreases text.len() - len,
{
    if len < text.len() {
        assert(text.take(len + 1).drop_last() =~= text.take(len));
        lemma_brackets_grow(text, len + 1);
    } else {
        assert(text.take(len) =~= text);
    }
}

/// What a document asks for, from the texts of its members.
pub fn interpret(
    msg: Option<String>,
    who: Option<String>,
    name: Option<String>,
    url: Option<String>,
) -> (request: Request)
    ensures
        request@ == interpreted(
            optional_text(msg),
            optional_text(who),
            optional_text(name),
            optional_text(url),
        ),
{
    match msg {
        None => Request::Invalid("Invalid message".to_owned()),
        Some(msg) => {
            if msg == "?".to_owned() {
                match who {
                    None => Request::Invalid("Expected field ?".to_owned()),
                    Some(who) => {
                        if who == "painter".to_owned() {
                            Request::Painter {
                                name: name.unwrap_or_default(),
                                url: url.unwrap_or_default(),
                            }
                        } else if who == "canvas".to_owned() {
                            Request::Canvas
                        } else {
                            Request::Invalid(
                                who.concat(" is not a valid ?. Should be painter or canvas"),
                            )
                        }
                    },
                }
            } else if msg == "p".to_owned() {
                Request::Pixels
            } else {
                Request::Invalid("Unknown message: ".to_owned().concat(msg.as_str()))
            }
        },
    }
}

/// The text of member `key` of `text`, which has been parsed before and
/// found to be a document.
fn member_again(text: &str, key: &str) -> (value: Option<String>)
    requires
        brackets(text@) <= MAX_BRACKETS,
        json_error(text@) is None,
    ensures
        optional_text(value) == json_member(text@, key@),
{
    match member_text(text, key) {
        Ok(value) => value,
        Err(_) => None,
    }
}

/// What the frame `text` asks for.
pub fn decode(text: &str) -> (request: Request)
    ensures
        request@ == request_of(text@),
{
    if !few_brackets(text) {
        return Request::Malformed("(Cannot parse) too many brackets".to_owned());
    }
    let msg = match member_text(text, "msg") {
        Ok(msg) => msg,
        Err(why) => {
            return Request::Malformed("(Cannot parse) ".to_owned().concat(why.as_str()));
        },
    };
    // The other members are looked up only where the answer depends on them.
    let asks_who = match &msg {
        Some(msg) => *msg == "?".to_owned(),
        None => false,
    };
    if !asks_who {
        return interpret(msg, None, None, None);
    }
    let who = member_again(text, "?");
    let paints = match &who {
        Some(who) => *who == "painter".to_owned(),
        None => false,
    };
    if !paints {
        return interpret(msg, who, None, None);
    }
    let name = member_again(text, "name");
    let url = member_again(text, "url");
    interpret(msg, who, name, url)
}

} // verus!
