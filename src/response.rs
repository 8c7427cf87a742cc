//! Building responses and writing them in wire form.
use vstd::prelude::*;
use crate::body::{plain_text, Body};
use crate::fields::{lemma_pairs_map_has, lemma_pairs_map_keys, StringMap};
use crate::status::{status_text, StatusCode};

verus! {

/// The header lines for the pairs `p`, in order, each `name: value\r\n`.
pub open spec fn header_lines(p: Seq<(Seq<char>, Seq<char>)>) -> Seq<char>
    decreases p.len(),
{
    if p.len() == 0 {
        Seq::empty()
    } else {
        header_lines(p.drop_last()) + header_line(p.last().0, p.last().1)
    }
}

/// One header line.
pub open spec fn header_line(name: Seq<char>, value: Seq<char>) -> Seq<char> {
    name + ": "@ + value + "\r\n"@
}

/// The status line of a response.
pub open spec fn status_line(code: StatusCode) -> Seq<char> {
    "HTTP/1.1 "@ + status_text(code) + "\r\n"@
}

/// Everything a response writes before its body: the status line, the
/// header lines and the blank line.
pub open spec fn head_of(r: Response) -> Seq<char> {
    status_line(r.statuscode) + header_lines(r.headers.pairs()) + "\r\n"@
}

proof fn lemma_header_lines_prefix(p: Seq<(Seq<char>, Seq<char>)>, n: int)
    requires
        0 <= n <= p.len(),
    ensures
        header_lines(p.subrange(0, n)).len() <= header_lines(p).len(),
        header_lines(p).subrange(0, header_lines(p.subrange(0, n)).len() as int) == header_lines(
            p.subrange(0, n),
        ),
    decreases p.len(),
{
    if n == p.len() {
        assert(p.subrange(0, n) =~= p);
        assert(header_lines(p).subrange(0, header_lines(p).len() as int) =~= header_lines(p));
    } else {
        lemma_header_lines_prefix(p.drop_last(), n);
        assert(p.drop_last().subrange(0, n) =~= p.subrange(0, n));
        let h = header_lines(p.subrange(0, n));
        assert(header_lines(p).subrange(0, h.len() as int) =~= header_lines(p.drop_last()).subrange(
            0,
            h.len() as int,
        ));
    }
}

/// The wire form of a response starts with its status line, and holds the
/// line `name: value` of each of its headers between the status line and the
/// blank line that ends the head.
pub proof fn lemma_head_holds_headers(r: Response, name: Seq<char>)
    requires
        r.wf(),
        r.headers@.contains_key(name),
    ensures
        head_of(r).subrange(0, status_line(r.statuscode).len() as int) == status_line(r.statuscode),
        exists|i: int|
            status_line(r.statuscode).len() <= i && i + header_line(name, r.headers@[name]).len()
                <= head_of(r).len() - 2 && #[trigger] head_of(r).subrange(
                i,
                i + header_line(name, r.headers@[name]).len(),
            ) == header_line(name, r.headers@[name]),
{
    let p = r.headers.pairs();
    let sl = status_line(r.statuscode);
    let hl = header_lines(p);
    lemma_pairs_map_keys(p, name);
    let j = choose|j: int| 0 <= j < p.len() && p[j].0 == name;
    lemma_pairs_map_has(p, j);
    lemma_header_lines_prefix(p, j + 1);
    let before = header_lines(p.subrange(0, j));
    assert(p.subrange(0, j + 1).drop_last() =~= p.subrange(0, j));
    let line = header_line(name, r.headers@[name]);
    assert(header_lines(p.subrange(0, j + 1)) == before + line);
    let bl = before.len() as int;
    let ll = line.len() as int;
    let i = sl.len() + bl;
    assert(head_of(r) == sl + hl + "\r\n"@);
    assert(head_of(r).subrange(0, sl.len() as int) =~= sl);
    assert(hl.subrange(bl, bl + ll) =~= line) by {
        assert(hl.subrange(0, bl + ll) == before + line);
        assert(hl.subrange(bl, bl + ll) =~= hl.subrange(0, bl + ll).subrange(bl, bl + ll));
        assert((before + line).subrange(bl, bl + ll) =~= line);
    }
    assert(head_of(r).subrange(i, i + ll) =~= hl.subrange(bl, bl + ll));
    reveal_strlit("\r\n");
    assert(bl + ll <= hl.len());
    assert(head_of(r).len() == sl.len() + hl.len() + 2);
    assert(i + ll <= head_of(r).len() - 2);
    assert(head_of(r).subrange(i, i + ll) == line);
}

/// A response under construction; each setter takes the response and hands
/// it back changed.
#[derive(Debug, Clone)]
pub struct Response {
    pub statuscode: StatusCode,
    pub headers: StringMap,
    pub body: Body,
}

impl Response {
    pub open spec fn wf(&self) -> bool {
        self.headers.wf()
    }

    /// The response `200 OK` with no headers and no body.
    pub fn new() -> (r: Response)
        ensures
            r.wf(),
            r.statuscode == StatusCode::Success,
            r.headers@ == Map::<Seq<char>, Seq<char>>::empty(),
            r.headers.pairs().len() == 0,
            r.body is Empty,
    {
        Response { statuscode: StatusCode::Success, headers: StringMap::new(), body: Body::Empty }
    }

    /// Sets the status.
    pub fn status(self, code: StatusCode) -> (r: Response)
        ensures
            r.statuscode == code,
            r.headers == self.headers,
            r.body == self.body,
    {
        let mut r = self;
        r.statuscode = code;
        r
    }

    /// Sets the body.
    pub fn body(self, body: Body) -> (r: Response)
        ensures
            r.statuscode == self.statuscode,
            r.headers == self.headers,
            r.body == body,
    {
        let mut r = self;
        r.body = body;
        r
    }

    /// Sets the header `name` to `value`.
    pub fn header(self, name: &str, value: &str) -> (r: Response)
        requires
            self.wf(),
        ensures
            r.wf(),
            r.statuscode == self.statuscode,
            r.headers@ == self.headers@.insert(name@, value@),
            r.body == self.body,
    {
        let mut r = self;
        r.headers.insert(String::from_str(name), String::from_str(value));
        r
    }

    /// Makes the response plain text: sets `Content-type: text/plain` and the
    /// text body `text`.
    pub fn text(self, text: &str) -> (r: Response)
        requires
            self.wf(),
        ensures
            r.wf(),
            r.statuscode == self.statuscode,
            r.headers@ == self.headers@.insert("Content-type"@, "text/plain"@),
            r.body matches Body::Text(t) && t@ == text@,
    {
        self.header("Content-type", "text/plain").body(Body::Text(String::from_str(text)))
    }

    /// The response `404 Not Found` with the text body `Not found`.
    pub fn not_found() -> (r: Response)
        ensures
            r.wf(),
            r.statuscode == StatusCode::NotFound,
            r.headers@ == Map::<Seq<char>, Seq<char>>::empty().insert(
                "Content-type"@,
                "text/plain"@,
            ),
            r.body matches Body::Text(t) && t@ == "Not found"@,
    {
        Response::new().text("Not found").status(StatusCode::NotFound)
    }

    /// The wire form: the status line, one line per header, a blank line, and
    /// the body's text.
    pub fn to_string(&self) -> (r: String)
        ensures
            !(self.body is Json) ==> r@ == head_of(*self) + plain_text(self.body),
            r@.len() >= head_of(*self).len(),
            r@.subrange(0, head_of(*self).len() as int) == head_of(*self),
    {
        let mut out = String::from_str("HTTP/1.1 ");
        let code = self.statuscode.to_string();
        out.append(code.as_str());
        out.append("\r\n");
        let ghost p = self.headers.pairs();
        let mut i: usize = 0;
        while i < self.headers.len()
            invariant
                i <= p.len(),
                p == self.headers.pairs(),
                out@ == status_line(self.statuscode) + header_lines(p.subrange(0, i as int)),
            decreases p.len() - i,
        {
            let (name, value) = self.headers.entry(i);
            out.append(name.as_str());
            out.append(": ");
            out.append(value.as_str());
            out.append("\r\n");
            assert(p.subrange(0, i + 1).drop_last() =~= p.subrange(0, i as int));
            assert(out@ =~= status_line(self.statuscode) + header_lines(p.subrange(0, i + 1)));
            i = i + 1;
        }
        assert(p.subrange(0, p.len() as int) =~= p);
        out.append("\r\n");
        let ghost head = out@;
        assert(head =~= head_of(*self));
        let body = self.body.to_string();
        out.append(body.as_str());
        assert(out@.subrange(0, head.len() as int) =~= head);
        out
    }
}

} // verus!
