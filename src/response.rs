//! HTTP/1.1 responses and their wire format.

use vstd::prelude::*;
use vstd::string::*;
use vstd::utf8::*;
use vstd::slice::*;

verus! {

/// The character of a single decimal digit.
pub open spec fn digit_char(d: nat) -> char {
    seq!['0', '1', '2', '3', '4', '5', '6', '7', '8', '9'][d as int]
}

/// The decimal numeral of `n`, most significant digit first, without leading zeros.
pub open spec fn decimal(n: nat) -> Seq<char>
    decreases n,
{
    if n < 10 {
        seq![digit_char(n)]
    } else {
        decimal(n / 10).push(digit_char(n % 10))
    }
}

fn digit_str(d: u64) -> (r: &'static str)
    requires
        d < 10,
    ensures
        r@ == seq![digit_char(d as nat)],
{
    proof {
        reveal_strlit("0");
        reveal_strlit("1");
        reveal_strlit("2");
        reveal_strlit("3");
        reveal_strlit("4");
        reveal_strlit("5");
        reveal_strlit("6");
        reveal_strlit("7");
        reveal_strlit("8");
        reveal_strlit("9");
    }
    let r = if d == 0 {
        "0"
    } else if d == 1 {
        "1"
    } else if d == 2 {
        "2"
    } else if d == 3 {
        "3"
    } else if d == 4 {
        "4"
    } else if d == 5 {
        "5"
    } else if d == 6 {
        "6"
    } else if d == 7 {
        "7"
    } else if d == 8 {
        "8"
    } else {
        "9"
    };
    assert(r@ =~= seq![digit_char(d as nat)]);
    r
}

/// Appends the decimal numeral of `n` to `s`.
pub fn push_decimal(s: &mut String, n: u64)
    ensures
        final(s)@ == old(s)@ + decimal(n as nat),
    decreases n,
{
    if n < 10 {
        s.append(digit_str(n));
    } else {
        push_decimal(s, n / 10);
        s.append(digit_str(n % 10));
        assert(final(s)@ =~= old(s)@ + decimal(n as nat));
    }
}


/// The three outcomes a response can report.
#[derive(Clone, Copy, Debug, PartialEq, Eq, Structural)]
pub enum Status {
    Success,
    BadRequest,
    NotFound,
}

impl Status {
    /// The numeric status code.
    pub open spec fn code(self) -> nat {
        match self {
            Status::Success => 200,
            Status::BadRequest => 400,
            Status::NotFound => 404,
        }
    }

    /// The reason phrase of the status line.
    pub open spec fn reason(self) -> Seq<char> {
        match self {
            Status::Success => "OK"@,
            Status::BadRequest => "BAD REQUEST"@,
            Status::NotFound => "NOT FOUND"@,
        }
    }

    /// Returns the numeric status code.
    pub fn code_number(&self) -> (r: u16)
        ensures
            r as nat == self.code(),
    {
        match self {
            Status::Success => 200,
            Status::BadRequest => 400,
            Status::NotFound => 404,
        }
    }

    /// Returns the reason phrase of the status line.
    pub fn reason_phrase(&self) -> (r: &'static str)
        ensures
            r@ == self.reason(),
    {
        match self {
            Status::Success => "OK",
            Status::BadRequest => "BAD REQUEST",
            Status::NotFound => "NOT FOUND",
        }
    }
}

/// The status line and header block, up to and including the blank line.
pub open spec fn head_text(status: Status, content_type: Seq<char>, length: nat) -> Seq<char> {
    "HTTP/1.1 "@ + decimal(status.code()) + " "@ + status.reason() + "\r\nContent-Length: "@
        + decimal(length) + "\r\nContent-Type: "@ + content_type + "\r\n\r\n"@
}

/// The bytes sent for a response with the given parts.
pub open spec fn wire_bytes(status: Status, content_type: Seq<char>, body: Seq<u8>) -> Seq<u8> {
    encode_utf8(head_text(status, content_type, body.len())) + body
}

/// A complete response: status, content type and body. The Content-Length
/// header is always the body's byte count.
pub struct HttpResponse {
    pub status: Status,
    pub content_type: String,
    pub body: Vec<u8>,
}

impl HttpResponse {
    /// The bytes this response puts on the connection.
    pub open spec fn wire(&self) -> Seq<u8> {
        wire_bytes(self.status, self.content_type@, self.body@)
    }

    /// Serializes the response: status line, Content-Length, Content-Type,
    /// blank line, body.
    pub fn to_bytes(&self) -> (r: Vec<u8>)
        ensures
            r@ == self.wire(),
    {
        let mut head = String::from_str("HTTP/1.1 ");
        push_decimal(&mut head, self.status.code_number() as u64);
        head.append(" ");
        head.append(self.status.reason_phrase());
        head.append("\r\nContent-Length: ");
        push_decimal(&mut head, self.body.len() as u64);
        head.append("\r\nContent-Type: ");
        head.append(self.content_type.as_str());
        head.append("\r\n\r\n");
        let mut out = head.as_str().as_bytes_vec();
        let mut rest = slice_to_vec(self.body.as_slice());
        out.append(&mut rest);
        assert(head@ =~= head_text(self.status, self.content_type@, self.body@.len()));
        out
    }

    /// The 404 response: `text/plain` with the body `404 Not Found`.
    pub fn not_found() -> (r: HttpResponse)
        ensures
            r.status == Status::NotFound,
            r.content_type@ == "text/plain"@,
            r.body@ == encode_utf8("404 Not Found"@),
    {
        HttpResponse {
            status: Status::NotFound,
            content_type: String::from_str("text/plain"),
            body: "404 Not Found".as_bytes_vec(),
        }
    }

    /// The 400 response: `text/plain` with the body `Bad Request`.
    pub fn bad_request() -> (r: HttpResponse)
        ensures
            r.status == Status::BadRequest,
            r.content_type@ == "text/plain"@,
            r.body@ == encode_utf8("Bad Request"@),
    {
        HttpResponse {
            status: Status::BadRequest,
            content_type: String::from_str("text/plain"),
            body: "Bad Request".as_bytes_vec(),
        }
    }

    /// A 200 response carrying a file's bytes unchanged under the given type.
    pub fn file(content: Vec<u8>, mime_type: String) -> (r: HttpResponse)
        ensures
            r.status == Status::Success,
            r.content_type@ == mime_type@,
            r.body@ == content@,
    {
        HttpResponse { status: Status::Success, content_type: mime_type, body: content }
    }

    /// A 200 `text/html` response whose body is the UTF-8 encoding of `content`.
    pub fn html_file(content: &str) -> (r: HttpResponse)
        ensures
            r.status == Status::Success,
            r.content_type@ == "text/html"@,
            r.body@ == encode_utf8(content@),
    {
        HttpResponse {
            status: Status::Success,
            content_type: String::from_str("text/html"),
            body: content.as_bytes_vec(),
        }
    }

    /// A 200 `text/html` listing of a directory: a heading naming `dir`, then
    /// one link to `/<name>` per entry, in the order given.
    pub fn directory_listing(dir: &str, entries: &Vec<String>) -> (r: HttpResponse)
        ensures
            r.status == Status::Success,
            r.content_type@ == "text/html"@,
            r.body@ == encode_utf8(listing_html(dir@, names_of(entries@))),
    {
        let ghost names = names_of(entries@);
        let mut html = String::from_str(
            "<!DOCTYPE html><html><head><meta charset=\"utf-8\"></head><body>",
        );
        html.append("<h1>Directory listing for ");
        html.append(dir);
        html.append("</h1><ul>");
        let ghost start = html@;
        let mut i: usize = 0;
        while i < entries.len()
            invariant
                i <= entries@.len(),
                names == names_of(entries@),
                html@ == start + listing_items(names.take(i as int)),
            decreases entries@.len() - i,
        {
            html.append("<li><a href=\"/");
            html.append(entries[i].as_str());
            html.append("\">");
            html.append(entries[i].as_str());
            html.append("</a></li>");
            proof {
                assert(names.take(i + 1).drop_last() =~= names.take(i as int));
            }
            i = i + 1;
        }
        html.append("</ul></body></html>");
        proof {
            assert(names.take(i as int) =~= names);
            assert(html@ =~= listing_html(dir@, names));
        }
        HttpResponse {
            status: Status::Success,
            content_type: String::from_str("text/html"),
            body: html.as_str().as_bytes_vec(),
        }
    }
}

/// The text of each entry name.
pub open spec fn names_of(entries: Seq<String>) -> Seq<Seq<char>> {
    entries.map_values(|e: String| e@)
}

/// One list item linking to `/<name>` and labelled with the name.
pub open spec fn item_html(name: Seq<char>) -> Seq<char> {
    "<li><a href=\"/"@ + name + "\">"@ + name + "</a></li>"@
}

/// The list items for `names`, in order.
pub open spec fn listing_items(names: Seq<Seq<char>>) -> Seq<char>
    decreases names.len(),
{
    if names.len() == 0 {
        Seq::empty()
    } else {
        listing_items(names.drop_last()) + item_html(names.last())
    }
}

/// The HTML document listing the entries `names` of the directory shown as `dir`.
pub open spec fn listing_html(dir: Seq<char>, names: Seq<Seq<char>>) -> Seq<char> {
    "<!DOCTYPE html><html><head><meta charset=\"utf-8\"></head><body>"@
        + "<h1>Directory listing for "@ + dir + "</h1><ul>"@ + listing_items(names)
        + "</ul></body></html>"@
}

} // verus!
