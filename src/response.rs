use vstd::prelude::*;
use vstd::string::StringSliceAdditionalSpecFns;
use crate::bytes::{append_bytes, decimal, decimal_bytes, ends_with, starts_with};
use crate::status::{Status, code_of, from_status, reason_of};

verus! {

pub open spec fn crlf() -> Seq<u8> {
    seq![13u8, 10u8]
}

/// The content type of HTML pages, the synthesized ones included.
pub open spec fn html_type() -> Seq<u8> {
    "text/html; charset=utf-8".spec_bytes()
}

/// The page sent with a redirect that has no body of its own.
pub open spec fn moved_page(reason: Seq<u8>, url: Seq<u8>) -> Seq<u8> {
    "<!DOCTYPE html>\n<html lang=\"en\">\n<head><meta charset=\"utf-8\"><title>".spec_bytes()
        + reason + "</title></head>\n<body>\n<h1>".spec_bytes() + reason
        + "</h1>\n<p>The document has moved <a href=\"".spec_bytes() + url
        + "\">here</a>.</p>\n</body>\n</html>".spec_bytes()
}

/// The page sent with an error that has no body of its own.
pub open spec fn error_page(reason: Seq<u8>) -> Seq<u8> {
    "<!DOCTYPE html>\n<html lang=\"en\">\n<head><meta charset=\"utf-8\"><title>".spec_bytes()
        + reason + "</title></head>\n<body>\n<h1>".spec_bytes() + reason
        + "</h1>\n</body>\n</html>".spec_bytes()
}

/// The body that is sent: the given one, or a synthesized page where it is empty
/// and the status is a redirect or an error.
pub open spec fn final_body(s: &Status, body: Seq<u8>) -> Seq<u8> {
    if body.len() > 0 {
        body
    } else {
        match s {
            Status::Success => body,
            Status::MovedPermanently(url) => moved_page(reason_of(s), url@),
            _ => error_page(reason_of(s)),
        }
    }
}

pub open spec fn status_line(s: &Status) -> Seq<u8> {
    "HTTP/1.1 ".spec_bytes() + decimal(code_of(s) as nat) + " ".spec_bytes() + reason_of(s)
        + crlf()
}

/// The `Location` header of a redirect; nothing for the other statuses.
pub open spec fn location_line(s: &Status) -> Seq<u8> {
    match s {
        Status::MovedPermanently(url) => "Location: ".spec_bytes() + url@ + crlf(),
        _ => Seq::empty(),
    }
}

/// The `Content-Length` header line followed by the blank line that ends the headers.
pub open spec fn length_trailer(len: nat) -> Seq<u8> {
    "Content-Length: ".spec_bytes() + decimal(len) + crlf() + crlf()
}

/// Everything before the body.
pub open spec fn head(s: &Status, content_type: Seq<u8>, len: nat) -> Seq<u8> {
    status_line(s) + location_line(s) + "Content-Type: ".spec_bytes() + content_type + crlf()
        + length_trailer(len)
}

/// The complete response for a status, a content type and a body.
pub open spec fn response_bytes(s: &Status, content_type: Seq<u8>, body: Seq<u8>) -> Seq<u8> {
    let b = final_body(s, body);
    head(s, content_type, b.len()) + b
}

fn push_crlf(out: &mut Vec<u8>)
    ensures
        final(out)@ == old(out)@ + crlf(),
{
    out.push(13);
    out.push(10);
    assert(final(out)@ =~= old(out)@ + crlf());
}

fn moved_page_bytes(reason: &str, url: &Vec<u8>) -> (r: Vec<u8>)
    ensures
        r@ == moved_page(reason.spec_bytes(), url@),
{
    let mut r: Vec<u8> = Vec::new();
    append_bytes(
        &mut r,
        "<!DOCTYPE html>\n<html lang=\"en\">\n<head><meta charset=\"utf-8\"><title>".as_bytes(),
    );
    append_bytes(&mut r, reason.as_bytes());
    append_bytes(&mut r, "</title></head>\n<body>\n<h1>".as_bytes());
    append_bytes(&mut r, reason.as_bytes());
    append_bytes(&mut r, "</h1>\n<p>The document has moved <a href=\"".as_bytes());
    append_bytes(&mut r, url.as_slice());
    append_bytes(&mut r, "\">here</a>.</p>\n</body>\n</html>".as_bytes());
    r
}

fn error_page_bytes(reason: &str) -> (r: Vec<u8>)
    ensures
        r@ == error_page(reason.spec_bytes()),
{
    let mut r: Vec<u8> = Vec::new();
    append_bytes(
        &mut r,
        "<!DOCTYPE html>\n<html lang=\"en\">\n<head><meta charset=\"utf-8\"><title>".as_bytes(),
    );
    append_bytes(&mut r, reason.as_bytes());
    append_bytes(&mut r, "</title></head>\n<body>\n<h1>".as_bytes());
    append_bytes(&mut r, reason.as_bytes());
    append_bytes(&mut r, "</h1>\n</body>\n</html>".as_bytes());
    r
}

/// Builds the full response: status line, headers, blank line and body. An empty
/// body of a redirect or an error is replaced by a short HTML page, and
/// `Content-Length` is the length of the body that is sent.
pub fn build_http_response(status: Status, content_type: &str, initial_body: Vec<u8>) -> (r: Vec<
    u8,
>)
    ensures
        r@ == response_bytes(&status, content_type.spec_bytes(), initial_body@),
{
    let (code, reason) = from_status(&status);
    let mut body = initial_body;
    if body.len() == 0 {
        match &status {
            Status::Success => {},
            Status::MovedPermanently(url) => {
                body = moved_page_bytes(reason, url);
            },
            _ => {
                body = error_page_bytes(reason);
            },
        }
    }
    let mut out: Vec<u8> = Vec::new();
    append_bytes(&mut out, "HTTP/1.1 ".as_bytes());
    let digits = decimal_bytes(code as usize);
    append_bytes(&mut out, digits.as_slice());
    append_bytes(&mut out, " ".as_bytes());
    append_bytes(&mut out, reason.as_bytes());
    push_crlf(&mut out);
    assert(out@ == status_line(&status));
    if let Status::MovedPermanently(url) = &status {
        append_bytes(&mut out, "Location: ".as_bytes());
        append_bytes(&mut out, url.as_slice());
        push_crlf(&mut out);
    }
    assert(out@ =~= status_line(&status) + location_line(&status));
    append_bytes(&mut out, "Content-Type: ".as_bytes());
    append_bytes(&mut out, content_type.as_bytes());
    push_crlf(&mut out);
    append_bytes(&mut out, "Content-Length: ".as_bytes());
    let len_digits = decimal_bytes(body.len());
    append_bytes(&mut out, len_digits.as_slice());
    push_crlf(&mut out);
    push_crlf(&mut out);
    assert(out@ =~= head(&status, content_type.spec_bytes(), body@.len()));
    append_bytes(&mut out, body.as_slice());
    out
}

/// Builds an HTML response whose body is the short page named after the status's
/// reason phrase, whatever the status.
pub fn build_error_response(status: Status) -> (r: Vec<u8>)
    ensures
        r@ == response_bytes(&status, html_type(), error_page(reason_of(&status))),
{
    let (_, reason) = from_status(&status);
    let page = error_page_bytes(reason);
    build_http_response(status, "text/html; charset=utf-8", page)
}

/// Every response ends with its body, and the headers before it end with a
/// `Content-Length` equal to that body's length, synthesized pages included.
pub proof fn content_length_is_body_length(s: &Status, content_type: Seq<u8>, body: Seq<u8>)
    ensures
        ({
            let b = final_body(s, body);
            let r = response_bytes(s, content_type, body);
            &&& b.len() <= r.len()
            &&& r.subrange(r.len() - b.len(), r.len() as int) == b
            &&& ends_with(r.subrange(0, r.len() - b.len()), length_trailer(b.len()))
        }),
{
    let b = final_body(s, body);
    let h = head(s, content_type, b.len());
    let r = response_bytes(s, content_type, body);
    assert(r.subrange(r.len() - b.len(), r.len() as int) =~= b);
    assert(r.subrange(0, r.len() - b.len()) =~= h);
    let t = length_trailer(b.len());
    assert(h.subrange(h.len() - t.len(), h.len() as int) =~= t);
}

/// No carriage return or line feed in `s`.
pub open spec fn line_free(s: Seq<u8>) -> bool {
    forall|i: int| 0 <= i < s.len() ==> s[i] != 13 && s[i] != 10
}

/// The redirect target of a redirect holds no line break; true of other statuses.
pub open spec fn url_line_free(s: &Status) -> bool {
    match s {
        Status::MovedPermanently(url) => line_free(url@),
        _ => true,
    }
}

/// Each line followed by CR LF.
pub open spec fn join_lines(ls: Seq<Seq<u8>>) -> Seq<u8>
    decreases ls.len(),
{
    if ls.len() == 0 {
        Seq::empty()
    } else {
        join_lines(ls.drop_last()) + ls.last() + crlf()
    }
}

pub open spec fn length_field() -> Seq<u8> {
    "Content-Length: ".spec_bytes()
}

/// The lines of a response's head, status line first and `Content-Length` last.
pub open spec fn head_lines(s: &Status, content_type: Seq<u8>, len: nat) -> Seq<Seq<u8>> {
    let first = seq![
        "HTTP/1.1 ".spec_bytes() + decimal(code_of(s) as nat) + " ".spec_bytes() + reason_of(s),
    ];
    let location = match s {
        Status::MovedPermanently(url) => seq!["Location: ".spec_bytes() + url@],
        _ => Seq::empty(),
    };
    first + location + seq!["Content-Type: ".spec_bytes() + content_type, length_field() + decimal(len)]
}

proof fn lemma_decimal_digits(n: nat)
    ensures
        decimal(n).len() > 0,
        forall|i: int| 0 <= i < decimal(n).len() ==> 48 <= #[trigger] decimal(n)[i] <= 57,
    decreases n,
{
    if n >= 10 {
        lemma_decimal_digits(n / 10);
    }
}

proof fn lemma_literal_bytes()
    ensures
        "HTTP/1.1 ".spec_bytes() =~= seq![72u8, 84, 84, 80, 47, 49, 46, 49, 32],
        " ".spec_bytes() =~= seq![32u8],
        "Location: ".spec_bytes() =~= seq![76u8, 111, 99, 97, 116, 105, 111, 110, 58, 32],
        "Content-Type: ".spec_bytes() =~= seq![67u8, 111, 110, 116, 101, 110, 116, 45, 84, 121, 112, 101, 58, 32],
        length_field() =~= seq![67u8, 111, 110, 116, 101, 110, 116, 45, 76, 101, 110, 103, 116, 104, 58, 32],
{
    broadcast use vstd::string::is_ascii_spec_bytes;

    reveal_strlit("HTTP/1.1 ");
    reveal_strlit(" ");
    reveal_strlit("Location: ");
    reveal_strlit("Content-Type: ");
    reveal_strlit("Content-Length: ");
    assert(vstd::string::is_ascii("HTTP/1.1 "));
    assert(vstd::string::is_ascii(" "));
    assert(vstd::string::is_ascii("Location: "));
    assert(vstd::string::is_ascii("Content-Type: "));
    assert(vstd::string::is_ascii("Content-Length: "));
}

proof fn lemma_reason_line_free(s: &Status)
    ensures
        line_free(reason_of(s)),
{
    broadcast use vstd::string::is_ascii_spec_bytes;

    reveal_strlit("OK");
    reveal_strlit("Moved Permanently");
    reveal_strlit("Bad Request");
    reveal_strlit("Forbidden");
    reveal_strlit("Not Found");
    reveal_strlit("Internal Server Error");
    reveal_strlit("Not Implemented");
    match s {
        Status::Success => assert(vstd::string::is_ascii("OK")),
        Status::MovedPermanently(_) => assert(vstd::string::is_ascii("Moved Permanently")),
        Status::BadRequest => assert(vstd::string::is_ascii("Bad Request")),
        Status::Forbidden => assert(vstd::string::is_ascii("Forbidden")),
        Status::PageNotFound => assert(vstd::string::is_ascii("Not Found")),
        Status::InternalServerError => assert(vstd::string::is_ascii("Internal Server Error")),
        Status::NotImplemented => assert(vstd::string::is_ascii("Not Implemented")),
    }
}

/// In a block of non-empty lines without line breaks, a line feed is never
/// followed by a carriage return, and the block ends with CR LF.
proof fn lemma_join_lines_breaks(ls: Seq<Seq<u8>>)
    requires
        forall|j: int| 0 <= j < ls.len() ==> line_free(#[trigger] ls[j]) && ls[j].len() > 0,
    ensures
        forall|p: int|
            0 <= p < join_lines(ls).len() - 1 && #[trigger] join_lines(ls)[p] == 10 ==> join_lines(
                ls,
            )[p + 1] != 13,
        ls.len() > 0 ==> join_lines(ls).len() >= 2 && join_lines(ls)[join_lines(ls).len() - 1]
            == 10,
    decreases ls.len(),
{
    if ls.len() > 0 {
        let q = ls.drop_last();
        lemma_join_lines_breaks(q);
        let j = join_lines(q);
        let l = ls.last();
        assert(line_free(l) && l.len() > 0);
        let x = join_lines(ls);
        assert(x == j + l + crlf());
        assert forall|p: int| 0 <= p < x.len() - 1 && #[trigger] x[p] == 10 implies x[p + 1] != 13 by {
            if p < j.len() - 1 {
                assert(x[p] == j[p] && x[p + 1] == j[p + 1]);
            } else if p == j.len() - 1 {
                assert(x[p + 1] == l[0]);
            } else if p < j.len() + l.len() {
                assert(x[p] == l[p - j.len()]);
            } else {
                assert(x[p] == 13);
            }
        }
    }
}

proof fn lemma_join_step(ls: Seq<Seq<u8>>, q: Seq<Seq<u8>>, l: Seq<u8>)
    requires
        ls =~= q.push(l),
    ensures
        join_lines(ls) == join_lines(q) + l + crlf(),
{
    assert(ls.drop_last() =~= q);
    assert(q.len() == 0 ==> join_lines(q) == Seq::<u8>::empty());
}

/// The head-line block of a response is its head without the final CR LF, and its
/// lines are free of breaks, non-empty, and only the last gives the length.
proof fn lemma_head_lines(s: &Status, content_type: Seq<u8>, len: nat)
    requires
        line_free(content_type),
        url_line_free(s),
    ensures
        head(s, content_type, len) == join_lines(head_lines(s, content_type, len)) + crlf(),
        forall|j: int|
            0 <= j < head_lines(s, content_type, len).len() ==> line_free(
                #[trigger] head_lines(s, content_type, len)[j],
            ) && head_lines(s, content_type, len)[j].len() > 0,
        forall|j: int|
            0 <= j < head_lines(s, content_type, len).len() ==> (starts_with(
                #[trigger] head_lines(s, content_type, len)[j],
                length_field(),
            ) <==> j == head_lines(s, content_type, len).len() - 1),
        head_lines(s, content_type, len).last() == length_field() + decimal(len),
{
    let ls = head_lines(s, content_type, len);
    lemma_literal_bytes();
    lemma_reason_line_free(s);
    lemma_decimal_digits(code_of(s) as nat);
    lemma_decimal_digits(len);
    let code = decimal(code_of(s) as nat);
    let l0 = "HTTP/1.1 ".spec_bytes() + code + " ".spec_bytes() + reason_of(s);
    let l2 = "Content-Type: ".spec_bytes() + content_type;
    let l3 = length_field() + decimal(len);
    assert(line_free(l0)) by {
        assert forall|i: int| 0 <= i < l0.len() implies l0[i] != 13 && l0[i] != 10 by {
            if i >= 9 && i < 9 + code.len() {
                assert(l0[i] == code[i - 9]);
            }
        }
    }
    assert(line_free(l2));
    assert(line_free(l3)) by {
        assert forall|i: int| 0 <= i < l3.len() implies l3[i] != 13 && l3[i] != 10 by {
            if i >= 16 {
                assert(l3[i] == decimal(len)[i - 16]);
            }
        }
    }
    assert(!starts_with(l0, length_field())) by {
        if l0.len() >= 16 {
            assert(l0.subrange(0, 16)[0] != length_field()[0]);
        }
    }
    assert(!starts_with(l2, length_field())) by {
        if l2.len() >= 16 {
            assert(l2.subrange(0, 16)[8] != length_field()[8]);
        }
    }
    assert(starts_with(l3, length_field())) by {
        assert(l3.subrange(0, 16) =~= length_field());
    }
    let q1 = seq![l0];
    lemma_join_step(q1, Seq::empty(), l0);
    match s {
        Status::MovedPermanently(url) => {
            let l1 = "Location: ".spec_bytes() + url@;
            assert(line_free(l1));
            assert(!starts_with(l1, length_field())) by {
                if l1.len() >= 16 {
                    assert(l1.subrange(0, 16)[0] != length_field()[0]);
                }
            }
            assert(ls =~= seq![l0, l1, l2, l3]);
            let q2 = seq![l0, l1];
            let q3 = seq![l0, l1, l2];
            lemma_join_step(q2, q1, l1);
            lemma_join_step(q3, q2, l2);
            lemma_join_step(ls, q3, l3);
            assert(head(s, content_type, len) =~= join_lines(ls) + crlf());
        },
        _ => {
            assert(ls =~= seq![l0, l2, l3]);
            let q2 = seq![l0, l2];
            lemma_join_step(q2, q1, l2);
            lemma_join_step(ls, q2, l3);
            assert(head(s, content_type, len) =~= join_lines(ls) + crlf());
        },
    }
}

/// After a block of non-empty, break-free lines, the first blank line is the one
/// that closes the block.
proof fn lemma_first_blank_line(ls: Seq<Seq<u8>>, b: Seq<u8>)
    requires
        ls.len() > 0,
        forall|j: int| 0 <= j < ls.len() ==> line_free(#[trigger] ls[j]) && ls[j].len() > 0,
    ensures
        ({
            let r = join_lines(ls) + crlf() + b;
            let n = join_lines(ls).len() + 2int;
            &&& 4 <= n <= r.len()
            &&& r.subrange(n - 4, n) == crlf() + crlf()
            &&& forall|i: int| 0 <= i < n - 4 ==> #[trigger] r.subrange(i, i + 4) != crlf() + crlf()
        }),
{
    let x = join_lines(ls);
    lemma_join_lines_breaks(ls);
    let r = x + crlf() + b;
    let n = x.len() + 2int;
    let cc = crlf() + crlf();
    assert(x[x.len() - 2] == 13);
    assert(r.subrange(n - 4, n) =~= cc);
    assert forall|i: int| 0 <= i < n - 4 implies #[trigger] r.subrange(i, i + 4) != cc by {
        if r.subrange(i, i + 4) == cc {
            assert(r.subrange(i, i + 4)[1] == 10 && r.subrange(i, i + 4)[2] == 13);
            assert(r[i + 1] == 10 && r[i + 2] == 13);
            assert(x[i + 1] == 10);
            assert(x[i + 2] == 13);
        }
    }
}

/// A response's head is exactly its header lines, each ended by CR LF and none
/// holding a line break, then a blank line; the first blank line is where the body
/// starts, and exactly one header line, the last, gives the `Content-Length`, which
/// is the length of the body sent. Content type and redirect target must hold no
/// line break.
pub proof fn head_is_one_block_of_lines(s: &Status, content_type: Seq<u8>, body: Seq<u8>)
    requires
        line_free(content_type),
        url_line_free(s),
    ensures
        ({
            let b = final_body(s, body);
            let r = response_bytes(s, content_type, body);
            let ls = head_lines(s, content_type, b.len());
            let n = r.len() - b.len();
            &&& r == join_lines(ls) + crlf() + b
            &&& forall|j: int| 0 <= j < ls.len() ==> line_free(#[trigger] ls[j]) && ls[j].len() > 0
            &&& forall|j: int|
                0 <= j < ls.len() ==> (starts_with(#[trigger] ls[j], length_field()) <==> j
                    == ls.len() - 1)
            &&& ls.last() == length_field() + decimal(b.len())
            &&& 4 <= n <= r.len()
            &&& r.subrange(n - 4, n) == crlf() + crlf()
            &&& forall|i: int| 0 <= i < n - 4 ==> #[trigger] r.subrange(i, i + 4) != crlf() + crlf()
        }),
{
    let b = final_body(s, body);
    let ls = head_lines(s, content_type, b.len());
    lemma_head_lines(s, content_type, b.len());
    lemma_first_blank_line(ls, b);
}

} // verus!
