//! HTTP/0.9 requests: how the client writes one, and which file the server reads
//! out of it.
//!
//! What a request names, `requested_uri` reads on every platform. Which file that is
//! below a root, `resolve` and `requested_file` say for Unix, where `/`, and nothing
//! else, separates the parts of a path. On other platforms they are not to be used.

use vstd::prelude::*;
use vstd::slice::{slice_subrange, slice_to_vec};
use vstd::string::*;
use vstd::utf8::{decode_utf8, encode_utf8, valid_utf8};

verus! {

/// The number of characters before the first `c`; all of them where there is none.
pub open spec fn position(s: Seq<char>, c: char) -> int
    decreases s.len(),
{
    if s.len() == 0 || s[0] == c {
        0
    } else {
        1 + position(s.drop_first(), c)
    }
}

/// The first line of a text, without the line feed that ends it and a carriage
/// return before that.
pub open spec fn first_line(s: Seq<char>) -> Seq<char> {
    let i = position(s, '\n');
    if i == s.len() {
        s
    } else if i > 0 && s[i - 1] == '\r' {
        s.take(i - 1)
    } else {
        s.take(i)
    }
}

/// Whether a part of a path names an entry of a directory, as the empty name, `.`
/// and `..` do not.
pub open spec fn is_normal(part: Seq<char>) -> bool {
    &&& part.len() > 0
    &&& part != seq!['.']
    &&& part != seq!['.', '.']
}

/// A part of a path, where it names an entry of a directory.
pub open spec fn normal_part(part: Seq<char>) -> Seq<Seq<char>> {
    if is_normal(part) {
        seq![part]
    } else {
        Seq::empty()
    }
}

/// The parts of a Unix path, between its slashes, that name an entry of a directory.
/// A backslash is a character like any other.
pub open spec fn components(path: Seq<char>) -> Seq<Seq<char>>
    decreases path.len(),
{
    proof {
        lemma_position(path, '/');
    }
    let i = position(path, '/');
    if i < path.len() {
        normal_part(path.take(i)) + components(path.skip(i + 1))
    } else {
        normal_part(path)
    }
}

/// A path extended by an entry of the directory that it names.
pub open spec fn push_part(path: Seq<char>, part: Seq<char>) -> Seq<char> {
    if path.len() == 0 || path.last() == '/' {
        path + part
    } else {
        path + seq!['/'] + part
    }
}

/// A path extended by one part after the other.
pub open spec fn push_parts(path: Seq<char>, parts: Seq<Seq<char>>) -> Seq<char>
    decreases parts.len(),
{
    if parts.len() == 0 {
        path
    } else {
        push_parts(push_part(path, parts[0]), parts.drop_first())
    }
}

/// The file below `root` that a request for `uri` asks for, by the rules of Unix
/// paths.
pub open spec fn resolve_spec(root: Seq<char>, uri: Seq<char>) -> Seq<char> {
    push_parts(root, components(uri))
}

/// What a position is: no earlier character is `c`, and the one there, if there
/// is one, is.
pub proof fn lemma_position(s: Seq<char>, c: char)
    ensures
        0 <= position(s, c) <= s.len(),
        forall|j: int| 0 <= j < position(s, c) ==> s[j] != c,
        position(s, c) < s.len() ==> s[position(s, c)] == c,
    decreases s.len(),
{
    if s.len() > 0 && s[0] != c {
        let t = s.drop_first();
        lemma_position(t, c);
        assert forall|j: int| 0 <= j < position(s, c) implies s[j] != c by {
            if j > 0 {
                assert(t[j - 1] != c);
            }
        }
    }
}

/// An index with these properties is the position.
proof fn lemma_position_unique(s: Seq<char>, c: char, i: int)
    requires
        0 <= i <= s.len(),
        forall|j: int| 0 <= j < i ==> s[j] != c,
        i < s.len() ==> s[i] == c,
    ensures
        position(s, c) == i,
{
    lemma_position(s, c);
    if position(s, c) < i {
        assert(s[position(s, c)] != c);
    } else if i < position(s, c) {
        assert(s[i] != c);
    }
}

/// The characters of a text.
fn characters(s: &str) -> (chars: Vec<char>)
    ensures
        chars@ == s@,
{
    let mut chars: Vec<char> = Vec::new();
    for c in it: s.chars()
        invariant
            it.seq() == s@,
            chars@ == it.seq().take(it.index() as int),
    {
        chars.push(c);
        assert(chars@ =~= it.seq().take(it.index() + 1));
    }
    assert(chars@ =~= s@);
    chars
}

/// The length of the first line.
fn first_line_len(chars: &Vec<char>) -> (n: usize)
    ensures
        n <= chars@.len(),
        chars@.take(n as int) == first_line(chars@),
{
    let mut i: usize = 0;
    while i < chars.len() && chars[i] != '\n'
        invariant
            i <= chars@.len(),
            forall|j: int| 0 <= j < i ==> chars@[j] != '\n',
        decreases chars@.len() - i,
    {
        i = i + 1;
    }
    proof {
        lemma_position_unique(chars@, '\n', i as int);
        assert(chars@.take(chars@.len() as int) =~= chars@);
    }
    if i < chars.len() && i > 0 && chars[i - 1] == '\r' {
        i - 1
    } else {
        i
    }
}

/// Whether the characters from `start` to before `end` name an entry of a
/// directory.
fn check_normal(chars: &Vec<char>, start: usize, end: usize) -> (b: bool)
    requires
        start <= end <= chars@.len(),
    ensures
        b == is_normal(chars@.subrange(start as int, end as int)),
{
    let ghost part = chars@.subrange(start as int, end as int);
    assert(seq!['.'].len() == 1 && seq!['.', '.'].len() == 2);
    if start == end {
        false
    } else if end - start == 1 {
        assert(chars@[start as int] == '.' ==> part =~= seq!['.']);
        assert(part == seq!['.'] ==> part[0] == '.');
        chars[start] != '.'
    } else if end - start == 2 {
        assert(chars@[start as int] == '.' && chars@[start + 1] == '.' ==> part =~= seq!['.', '.']);
        assert(part == seq!['.', '.'] ==> part[0] == '.' && part[1] == '.');
        chars[start] != '.' || chars[start + 1] != '.'
    } else {
        true
    }
}

/// The file below `root` that a request for `uri` asks for: `root` extended by
/// every part of `uri` that names an entry of a directory. The empty name, `.`
/// and `..` are left out, and so is a slash in front. Both are Unix paths.
pub fn resolve(root: &str, uri: &str) -> (path: String)
    ensures
        path@ == resolve_spec(root@, uri@),
{
    let chars: Vec<char> = characters(uri);
    let root_chars: Vec<char> = characters(root);
    let mut path: String = root.to_string();
    let mut need_slash: bool = root_chars.len() > 0 && root_chars[root_chars.len() - 1] != '/';
    let mut start: usize = 0;
    let mut i: usize = 0;
    assert(uri@.skip(0) =~= uri@);
    while i < chars.len()
        invariant
            chars@ == uri@,
            start <= i <= chars@.len(),
            forall|j: int| start <= j < i ==> uri@[j] != '/',
            need_slash == (path@.len() > 0 && path@.last() != '/'),
            push_parts(path@, components(uri@.skip(start as int))) == resolve_spec(root@, uri@),
        decreases chars@.len() - i,
    {
        if chars[i] == '/' {
            let ghost tail = uri@.skip(start as int);
            let ghost part = uri@.subrange(start as int, i as int);
            let ghost before = path@;
            proof {
                lemma_position_unique(tail, '/', i - start);
                assert(tail.take(i - start) =~= part);
                assert(tail.skip(i - start + 1) =~= uri@.skip(i + 1));
            }
            if check_normal(&chars, start, i) {
                if need_slash {
                    path.append("/");
                }
                path.append(uri.substring_char(start, i));
                need_slash = true;
                proof {
                    reveal_strlit("/");
                    assert("/"@ =~= seq!['/']);
                    assert(path@ =~= push_part(before, part));
                    assert(path@.last() == part.last());
                    assert(part.last() == uri@[i - 1]);
                    lemma_push_first(before, part, components(uri@.skip(i + 1)));
                }
            } else {
                assert(Seq::<Seq<char>>::empty() + components(uri@.skip(i + 1)) =~= components(
                    uri@.skip(i + 1),
                ));
            }
            start = i + 1;
        }
        i = i + 1;
    }
    let ghost tail = uri@.skip(start as int);
    let ghost before = path@;
    proof {
        lemma_position_unique(tail, '/', tail.len() as int);
        assert(tail =~= uri@.subrange(start as int, i as int));
    }
    if check_normal(&chars, start, i) {
        if need_slash {
            path.append("/");
        }
        path.append(uri.substring_char(start, i));
        proof {
            reveal_strlit("/");
            assert("/"@ =~= seq!['/']);
            assert(path@ =~= push_part(before, tail));
            lemma_push_first(before, tail, Seq::empty());
            assert(seq![tail] + Seq::<Seq<char>>::empty() =~= seq![tail]);
        }
    }
    path
}

/// Extending a path by several parts starts with the first of them.
proof fn lemma_push_first(path: Seq<char>, part: Seq<char>, parts: Seq<Seq<char>>)
    ensures
        push_parts(path, seq![part] + parts) == push_parts(push_part(path, part), parts),
{
    assert((seq![part] + parts).drop_first() =~= parts);
}

/// What a stream asks for.
#[derive(Debug, PartialEq, Eq)]
pub enum Request {
    /// Nothing: the bytes are not a GET request.
    NotGet,
    /// A GET request that is not text.
    Undecodable,
    /// What the request names, or the file that this stands for.
    Get(String),
}

/// A request as a mathematical value.
pub enum RequestView {
    NotGet,
    Undecodable,
    Get(Seq<char>),
}

impl View for Request {
    type V = RequestView;

    open spec fn view(&self) -> RequestView {
        match self {
            Request::NotGet => RequestView::NotGet,
            Request::Undecodable => RequestView::Undecodable,
            Request::Get(path) => RequestView::Get(path@),
        }
    }
}

/// Whether a GET request, with something after the method, starts the bytes.
pub open spec fn is_get(bytes: Seq<u8>) -> bool {
    &&& bytes.len() > 4
    &&& bytes.take(4) == encode_utf8("GET "@)
}

/// What the bytes of a stream name: the first line after `GET `.
pub open spec fn uri_spec(bytes: Seq<u8>) -> RequestView {
    if !is_get(bytes) {
        RequestView::NotGet
    } else if !valid_utf8(bytes.skip(4)) {
        RequestView::Undecodable
    } else {
        RequestView::Get(first_line(decode_utf8(bytes.skip(4))))
    }
}

/// The file below `root`, a Unix path, that the bytes of a stream ask for.
pub open spec fn request_spec(bytes: Seq<u8>, root: Seq<char>) -> RequestView {
    match uri_spec(bytes) {
        RequestView::Get(uri) => RequestView::Get(resolve_spec(root, uri)),
        other => other,
    }
}

/// `String::from_utf8`: the text that the bytes encode, where they are valid
/// UTF-8.
#[verifier::external_body]
fn text_from_utf8(bytes: Vec<u8>) -> (text: Option<String>)
    ensures
        match text {
            Some(t) => valid_utf8(bytes@) && t@ == decode_utf8(bytes@),
            None => !valid_utf8(bytes@),
        },
{
    String::from_utf8(bytes).ok()
}

/// The bytes of the method, and the blank after it.
proof fn lemma_method_bytes()
    ensures
        encode_utf8("GET "@) == seq![0x47u8, 0x45u8, 0x54u8, 0x20u8],
{
    reveal_strlit("GET ");
    assert(vstd::utf8::is_ascii_chars("GET "@));
    vstd::utf8::is_ascii_chars_encode_utf8("GET "@);
    assert(encode_utf8("GET "@) =~= seq![0x47u8, 0x45u8, 0x54u8, 0x20u8]);
}

/// Reads a request: what the first line after `GET ` names.
pub fn requested_uri(bytes: &[u8]) -> (request: Request)
    ensures
        request@ == uri_spec(bytes@),
{
    proof {
        lemma_method_bytes();
    }
    if bytes.len() <= 4 {
        return Request::NotGet;
    }
    if bytes[0] != 0x47 || bytes[1] != 0x45 || bytes[2] != 0x54 || bytes[3] != 0x20 {
        assert(bytes@.take(4) != seq![0x47u8, 0x45u8, 0x54u8, 0x20u8]) by {
            let t = bytes@.take(4);
            assert(t[0] == bytes@[0] && t[1] == bytes@[1] && t[2] == bytes@[2] && t[3] == bytes@[3]);
            let m = seq![0x47u8, 0x45u8, 0x54u8, 0x20u8];
            assert(m[0] == 0x47 && m[1] == 0x45 && m[2] == 0x54 && m[3] == 0x20);
        }
        return Request::NotGet;
    }
    assert(bytes@.take(4) =~= seq![0x47u8, 0x45u8, 0x54u8, 0x20u8]);
    let rest: &[u8] = slice_subrange(bytes, 4, bytes.len());
    assert(rest@ =~= bytes@.skip(4));
    match text_from_utf8(slice_to_vec(rest)) {
        Some(text) => {
            let chars: Vec<char> = characters(text.as_str());
            let n: usize = first_line_len(&chars);
            let line: &str = text.as_str().substring_char(0, n);
            assert(line@ =~= first_line(text@));
            Request::Get(line.to_string())
        },
        None => Request::Undecodable,
    }
}

/// Reads a request on Unix: the file below `root` that the first line after `GET `
/// asks for.
pub fn requested_file(bytes: &[u8], root: &str) -> (request: Request)
    ensures
        request@ == request_spec(bytes@, root@),
{
    match requested_uri(bytes) {
        Request::Get(uri) => Request::Get(resolve(root, uri.as_str())),
        other => other,
    }
}

/// The text of a request for a path.
pub open spec fn request_text(path: Seq<char>) -> Seq<char> {
    "GET "@ + path + "\r\n"@
}

/// Writes a request for a path.
pub fn build_request(path: &str) -> (bytes: Vec<u8>)
    ensures
        bytes@ == encode_utf8(request_text(path@)),
        bytes@ == encode_utf8("GET "@ + path@ + "\r\n"@),
{
    let mut text: String = "GET ".to_string();
    text.append(path);
    text.append("\r\n");
    text.as_str().as_bytes_vec()
}

/// A URL's target as a mathematical value.
pub struct TargetView {
    pub path: Seq<char>,
    pub domain: Option<Seq<char>>,
    pub host: Option<Seq<char>>,
    pub port: Option<u16>,
}

/// What the URL standard reads off a text, where it is a URL.
pub uninterp spec fn url_spec(url: Seq<char>) -> Option<TargetView>;

/// A text that may be missing, as a mathematical value.
pub open spec fn text_view(text: Option<String>) -> Option<Seq<char>> {
    match text {
        Some(t) => Some(t@),
        None => None,
    }
}

/// `url::Url::parse`, and `path`, `domain`, `host_str` and `port_or_known_default` on
/// what it returns: they depend on the text alone, and there are none where the text
/// is no URL. The path is percent-encoded, so that it holds no line feed.
#[verifier::external_body]
fn parse_url(url: &str) -> (target: Option<Target>)
    ensures
        match target {
            Some(t) => url_spec(url@) == Some(t@),
            None => url_spec(url@) is None,
        },
        target matches Some(t) ==> !t.path@.contains('\n'),
{
    let url = url::Url::parse(url).ok()?;
    Some(
        Target {
            path: url.path().to_string(),
            domain: url.domain().map(String::from),
            host: url.host_str().map(String::from),
            port: url.port_or_known_default(),
        },
    )
}

/// What the client fetches, and from whom.
#[derive(Debug)]
pub struct Target {
    pub path: String,
    /// The name of the server, where it is not an address.
    pub domain: Option<String>,
    /// The name or the address of the server; an IPv6 address is in brackets.
    pub host: Option<String>,
    /// The port, or the one that the scheme stands for.
    pub port: Option<u16>,
}

impl View for Target {
    type V = TargetView;

    open spec fn view(&self) -> TargetView {
        TargetView {
            path: self.path@,
            domain: text_view(self.domain),
            host: text_view(self.host),
            port: self.port,
        }
    }
}

impl Target {
    /// Reads a URL.
    pub fn parse(url: &str) -> (target: Option<Target>)
        ensures
            match target {
                Some(t) => url_spec(url@) == Some(t@) && !t.path@.contains('\n'),
                None => url_spec(url@) is None,
            },
    {
        parse_url(url)
    }

    /// The request to send.
    pub fn request(&self) -> (bytes: Vec<u8>)
        ensures
            bytes@ == encode_utf8(request_text(self.path@)),
            bytes@ == encode_utf8("GET "@ + self.path@ + "\r\n"@),
    {
        build_request(self.path.as_str())
    }
}

/// Texts are encoded one after the other.
proof fn lemma_encode_concat(a: Seq<char>, b: Seq<char>)
    ensures
        encode_utf8(a + b) == encode_utf8(a) + encode_utf8(b),
    decreases a.len(),
{
    if a.len() == 0 {
        assert(a + b =~= b);
        assert(encode_utf8(a) + encode_utf8(b) =~= encode_utf8(b));
    } else {
        lemma_encode_concat(a.drop_first(), b);
        assert((a + b).drop_first() =~= a.drop_first() + b);
        assert(encode_utf8(a + b) =~= encode_utf8(a) + encode_utf8(b));
    }
}

/// The server understands what the client writes: a request for a path without a
/// line feed names that path, and on Unix asks for the file that it resolves to.
pub proof fn law_request_is_understood(root: Seq<char>, path: Seq<char>)
    requires
        !path.contains('\n'),
    ensures
        uri_spec(encode_utf8(request_text(path))) == RequestView::Get(path),
        request_spec(encode_utf8(request_text(path)), root) == RequestView::Get(
            resolve_spec(root, path),
        ),
{
    let tail = path + "\r\n"@;
    let bytes = encode_utf8(request_text(path));
    reveal_strlit("\r\n");
    assert(request_text(path) =~= "GET "@ + tail);
    lemma_encode_concat("GET "@, tail);
    lemma_method_bytes();
    assert(tail.len() > 0);
    assert(encode_utf8(tail).len() > 0) by {
        vstd::utf8::encode_utf8_first_scalar(tail);
    }
    assert(bytes.take(4) =~= encode_utf8("GET "@));
    assert(bytes.skip(4) =~= encode_utf8(tail));
    vstd::utf8::encode_utf8_valid_utf8(tail);
    vstd::utf8::encode_utf8_decode_utf8(tail);
    assert forall|j: int| 0 <= j < path.len() + 1 implies tail[j] != '\n' by {
        if j < path.len() {
            assert(tail[j] == path[j]);
        }
    }
    lemma_position_unique(tail, '\n', (path.len() + 1) as int);
    assert(first_line(tail) =~= path);
}

/// A path that is joined to another by a slash has the parts of both.
proof fn lemma_components_join(a: Seq<char>, b: Seq<char>)
    ensures
        components(a + seq!['/'] + b) == components(a) + components(b),
    decreases a.len(),
{
    let whole = a + seq!['/'] + b;
    let i = position(a, '/');
    lemma_position(a, '/');
    if i < a.len() {
        lemma_position_unique(whole, '/', i);
        assert(whole.take(i) =~= a.take(i));
        assert(whole.skip(i + 1) =~= a.skip(i + 1) + seq!['/'] + b);
        lemma_components_join(a.skip(i + 1), b);
        assert(components(whole) =~= components(a) + components(b));
    } else {
        assert forall|j: int| 0 <= j < a.len() implies whole[j] != '/' by {
            assert(whole[j] == a[j]);
        }
        lemma_position_unique(whole, '/', a.len() as int);
        assert(whole.take(a.len() as int) =~= a);
        assert(whole.skip((a.len() + 1) as int) =~= b);
    }
}

/// The parts of a path name entries of directories, and hold no slash.
pub proof fn law_components_are_normal(path: Seq<char>)
    ensures
        forall|k: int|
            0 <= k < components(path).len() ==> is_normal(#[trigger] components(path)[k])
                && !components(path)[k].contains('/'),
    decreases path.len(),
{
    let i = position(path, '/');
    lemma_position(path, '/');
    let head = path.take(i);
    assert forall|j: int| 0 <= j < head.len() implies head[j] != '/' by {
        assert(head[j] == path[j]);
    }
    if i < path.len() {
        law_components_are_normal(path.skip(i + 1));
        let rest = components(path.skip(i + 1));
        assert forall|k: int| 0 <= k < components(path).len() implies is_normal(
            #[trigger] components(path)[k],
        ) && !components(path)[k].contains('/') by {
            let n = normal_part(head).len();
            if k >= n {
                assert(components(path)[k] == rest[k - n]);
            }
        }
    } else {
        assert(head =~= path);
    }
}

/// Extending a path by a part that names an entry adds that part.
proof fn lemma_push_part(path: Seq<char>, part: Seq<char>)
    requires
        is_normal(part),
        !part.contains('/'),
    ensures
        components(push_part(path, part)) == components(path).push(part),
{
    assert forall|j: int| 0 <= j < part.len() implies part[j] != '/' by {}
    lemma_position_unique(part, '/', part.len() as int);
    assert(components(part) == seq![part]);
    if path.len() == 0 {
        lemma_position(path, '/');
        assert(components(path) =~= Seq::<Seq<char>>::empty());
        assert(path + part =~= part);
        assert(components(path).push(part) =~= seq![part]);
    } else if path.last() == '/' {
        let front = path.drop_last();
        assert(path =~= front + seq!['/'] + Seq::<char>::empty());
        assert(path + part =~= front + seq!['/'] + part);
        lemma_components_join(front, Seq::empty());
        lemma_components_join(front, part);
        lemma_position(Seq::<char>::empty(), '/');
        assert(components(Seq::<char>::empty()) =~= Seq::<Seq<char>>::empty());
        assert(components(path) =~= components(front));
        assert(components(front) + seq![part] =~= components(path).push(part));
    } else {
        lemma_components_join(path, part);
        assert(components(path) + seq![part] =~= components(path).push(part));
    }
}

proof fn lemma_push_parts(path: Seq<char>, parts: Seq<Seq<char>>)
    requires
        forall|k: int|
            0 <= k < parts.len() ==> is_normal(#[trigger] parts[k]) && !parts[k].contains('/'),
    ensures
        components(push_parts(path, parts)) == components(path) + parts,
        path.is_prefix_of(push_parts(path, parts)),
    decreases parts.len(),
{
    if parts.len() == 0 {
        assert(components(path) + parts =~= components(path));
        assert(path =~= path.take(path.len() as int));
    } else {
        let next = push_part(path, parts[0]);
        let rest = parts.drop_first();
        assert forall|k: int| 0 <= k < rest.len() implies is_normal(#[trigger] rest[k])
            && !rest[k].contains('/') by {
            assert(rest[k] == parts[k + 1]);
        }
        lemma_push_part(path, parts[0]);
        lemma_push_parts(next, rest);
        assert(components(path).push(parts[0]) + rest =~= components(path) + parts);
        let whole = push_parts(path, parts);
        assert(path =~= next.take(path.len() as int));
        assert(next == whole.take(next.len() as int));
        assert(whole.take(next.len() as int).take(path.len() as int) =~= whole.take(
            path.len() as int,
        ));
    }
}

/// No request leaves the root, a Unix path: the file that it asks for lies below the root, by
/// exactly the parts of the request that name entries of directories. Neither
/// `..` nor a slash in front leads anywhere else.
pub proof fn law_request_stays_below_root(root: Seq<char>, uri: Seq<char>)
    ensures
        root.is_prefix_of(resolve_spec(root, uri)),
        components(resolve_spec(root, uri)) == components(root) + components(uri),
        forall|k: int|
            0 <= k < components(uri).len() ==> #[trigger] components(uri)[k] != seq!['.', '.'],
{
    law_components_are_normal(uri);
    lemma_push_parts(root, components(uri));
}

/// The first line of a text ends before its first line feed, and before a carriage
/// return in front of that; a text without a line feed is one line.
pub proof fn law_first_line(line: Seq<char>, rest: Seq<char>)
    requires
        !line.contains('\n'),
    ensures
        first_line(line) == line,
        first_line(line + seq!['\r', '\n'] + rest) == line,
        (line.len() == 0 || line.last() != '\r') ==> first_line(line + seq!['\n'] + rest) == line,
{
    assert forall|j: int| 0 <= j < line.len() implies line[j] != '\n' by {}
    lemma_position_unique(line, '\n', line.len() as int);
    let n = line.len() as int;
    let crlf = line + seq!['\r', '\n'] + rest;
    assert forall|j: int| 0 <= j < n + 1 implies crlf[j] != '\n' by {
        if j < n {
            assert(crlf[j] == line[j]);
        } else {
            assert(crlf[j] == '\r');
        }
    }
    assert(crlf[n + 1] == '\n');
    lemma_position_unique(crlf, '\n', n + 1);
    assert(crlf[n] == '\r');
    assert(first_line(crlf) =~= line);
    let lf = line + seq!['\n'] + rest;
    assert forall|j: int| 0 <= j < n implies lf[j] != '\n' by {
        assert(lf[j] == line[j]);
    }
    assert(lf[n] == '\n');
    lemma_position_unique(lf, '\n', n);
    if line.len() == 0 || line.last() != '\r' {
        if n > 0 {
            assert(lf[n - 1] == line.last());
        }
        assert(first_line(lf) =~= line);
    }
}

/// The parts of a path are those between its slashes: a path without a slash is its only
/// part, unless it is empty, `.` or `..`, and a slash splits a path into the parts of
/// both sides.
pub proof fn law_components(part: Seq<char>, a: Seq<char>, b: Seq<char>)
    requires
        !part.contains('/'),
    ensures
        part.len() > 0 && part != seq!['.'] && part != seq!['.', '.'] ==> components(part) == seq![
            part,
        ],
        part.len() == 0 || part == seq!['.'] || part == seq!['.', '.'] ==> components(part)
            == Seq::<Seq<char>>::empty(),
        components(a + seq!['/'] + b) == components(a) + components(b),
{
    assert forall|j: int| 0 <= j < part.len() implies part[j] != '/' by {}
    lemma_position_unique(part, '/', part.len() as int);
    lemma_components_join(a, b);
}

proof fn lemma_push_parts_join(path: Seq<char>, a: Seq<Seq<char>>, b: Seq<Seq<char>>)
    ensures
        push_parts(path, a + b) == push_parts(push_parts(path, a), b),
    decreases a.len(),
{
    if a.len() == 0 {
        assert(a + b =~= b);
    } else {
        assert((a + b).drop_first() =~= a.drop_first() + b);
        lemma_push_parts_join(push_part(path, a[0]), a.drop_first(), b);
    }
}

/// The file that a request asks for: a name is put below the root, behind a slash where
/// the root does not end in one; the empty name, `.` and `..` lead nowhere; and what
/// follows a slash is found below what comes before it.
pub proof fn law_resolve(root: Seq<char>, part: Seq<char>, a: Seq<char>, b: Seq<char>)
    requires
        !part.contains('/'),
    ensures
        part.len() > 0 && part != seq!['.'] && part != seq!['.', '.'] ==> resolve_spec(root, part)
            == (if root.len() == 0 || root.last() == '/' {
            root + part
        } else {
            root + seq!['/'] + part
        }),
        part.len() == 0 || part == seq!['.'] || part == seq!['.', '.'] ==> resolve_spec(root, part)
            == root,
        resolve_spec(root, a + seq!['/'] + b) == resolve_spec(resolve_spec(root, a), b),
{
    law_components(part, a, b);
    lemma_push_parts_join(root, components(a), components(b));
    if part.len() > 0 && part != seq!['.'] && part != seq!['.', '.'] {
        lemma_push_first(root, part, Seq::empty());
        assert(seq![part] + Seq::<Seq<char>>::empty() =~= seq![part]);
    }
}

/// Bytes are a request exactly where they start with `GET ` and something follows. What
/// a text after it names is its first line; bytes that are no text name nothing.
pub proof fn law_request_bytes(bytes: Seq<u8>, text: Seq<char>)
    ensures
        uri_spec(bytes) is NotGet <==> !(bytes.len() > 4 && bytes[0] == 0x47 && bytes[1] == 0x45
            && bytes[2] == 0x54 && bytes[3] == 0x20),
        uri_spec(bytes) is Undecodable <==> bytes.len() > 4 && bytes[0] == 0x47 && bytes[1] == 0x45
            && bytes[2] == 0x54 && bytes[3] == 0x20 && !valid_utf8(bytes.skip(4)),
        text.len() > 0 ==> uri_spec(encode_utf8("GET "@ + text)) == RequestView::Get(
            first_line(text),
        ),
{
    lemma_method_bytes();
    let method = seq![0x47u8, 0x45u8, 0x54u8, 0x20u8];
    assert(method[0] == 0x47 && method[1] == 0x45 && method[2] == 0x54 && method[3] == 0x20);
    if bytes.len() > 4 {
        let t = bytes.take(4);
        assert(t[0] == bytes[0] && t[1] == bytes[1] && t[2] == bytes[2] && t[3] == bytes[3]);
        if bytes[0] == 0x47 && bytes[1] == 0x45 && bytes[2] == 0x54 && bytes[3] == 0x20 {
            assert(t =~= method);
        }
    }
    if text.len() > 0 {
        let whole = encode_utf8("GET "@ + text);
        lemma_encode_concat("GET "@, text);
        vstd::utf8::encode_utf8_first_scalar(text);
        assert(whole.take(4) =~= method);
        assert(whole.skip(4) =~= encode_utf8(text));
        vstd::utf8::encode_utf8_valid_utf8(text);
        vstd::utf8::encode_utf8_decode_utf8(text);
    }
}

/// Which file bytes ask for is settled by what they name: the file that this resolves
/// to.
pub proof fn law_requested_file(bytes: Seq<u8>, root: Seq<char>)
    ensures
        uri_spec(bytes) matches RequestView::Get(uri) ==> request_spec(bytes, root)
            == RequestView::Get(resolve_spec(root, uri)),
        !(uri_spec(bytes) is Get) ==> request_spec(bytes, root) == uri_spec(bytes),
{
}

} // verus!
