//! A small XML tree for the wire documents: elements without attributes whose
//! content is either empty, text, or child elements.  The serializer is exact
//! against `ser_node`; the parser accepts the self-closing and the open/close
//! form of an empty element, the five standard entities, and an optional
//! document prologue.

use vstd::prelude::*;

verus! {

/// One XML element.
pub struct XmlNode {
    pub name: Vec<char>,
    pub content: XmlContent,
}

/// What stands between an element's tags.  An element with no content at all
/// is `Empty`; `Text` and `Elems` are never empty.
pub enum XmlContent {
    Empty,
    Text(Vec<char>),
    Elems(Vec<XmlNode>),
}

/// Mathematical view of an element.
pub ghost struct XNode {
    pub name: Seq<char>,
    pub content: XContent,
}

/// Mathematical view of element content.
pub ghost enum XContent {
    Empty,
    Text(Seq<char>),
    Elems(Seq<XNode>),
}

pub open spec fn node_view(n: XmlNode) -> XNode
    decreases n,
{
    XNode {
        name: n.name@,
        content: match n.content {
            XmlContent::Empty => XContent::Empty,
            XmlContent::Text(t) => XContent::Text(t@),
            XmlContent::Elems(es) => XContent::Elems(nodes_view(es@)),
        },
    }
}

pub open spec fn nodes_view(s: Seq<XmlNode>) -> Seq<XNode>
    decreases s,
{
    if s.len() == 0 {
        Seq::empty()
    } else {
        nodes_view(s.drop_last()).push(node_view(s.last()))
    }
}

impl View for XmlNode {
    type V = XNode;

    open spec fn view(&self) -> XNode {
        node_view(*self)
    }
}

/// A view sequence is indexed element by element.
pub proof fn lemma_nodes_view(s: Seq<XmlNode>)
    ensures
        nodes_view(s).len() == s.len(),
        forall|i: int| 0 <= i < s.len() ==> nodes_view(s)[i] == s[i]@,
    decreases s,
{
    if s.len() > 0 {
        lemma_nodes_view(s.drop_last());
    }
}

/// The replacement text written for one character of element text.
pub open spec fn esc_char(c: char) -> Seq<char> {
    if c == '&' {
        seq!['&', 'a', 'm', 'p', ';']
    } else if c == '<' {
        seq!['&', 'l', 't', ';']
    } else if c == '>' {
        seq!['&', 'g', 't', ';']
    } else {
        seq![c]
    }
}

/// Element text as written on the wire: `&`, `<` and `>` become entities.
pub open spec fn esc(s: Seq<char>) -> Seq<char>
    decreases s,
{
    if s.len() == 0 {
        Seq::empty()
    } else {
        esc(s.drop_last()) + esc_char(s.last())
    }
}

/// The exact wire text of an element.
pub open spec fn ser_node(n: XNode) -> Seq<char>
    decreases n,
{
    match n.content {
        XContent::Empty => seq!['<'] + n.name + seq!['/', '>'],
        XContent::Text(t) => seq!['<'] + n.name + seq!['>'] + esc(t) + seq!['<', '/'] + n.name
            + seq!['>'],
        XContent::Elems(es) => seq!['<'] + n.name + seq!['>'] + ser_nodes(es) + seq!['<', '/']
            + n.name + seq!['>'],
    }
}

/// The exact wire text of a sequence of elements, in order.
pub open spec fn ser_nodes(s: Seq<XNode>) -> Seq<char>
    decreases s,
{
    if s.len() == 0 {
        Seq::empty()
    } else {
        ser_nodes(s.drop_last()) + ser_node(s.last())
    }
}

/// Element-wise equality of two character vectors.
pub fn chars_eq(a: &Vec<char>, b: &Vec<char>) -> (r: bool)
    ensures
        r == (a@ == b@),
{
    if a.len() != b.len() {
        proof {
            assert(a@ != b@);
        }
        return false;
    }
    let mut i: usize = 0;
    while i < a.len()
        invariant
            i <= a.len(),
            a@.len() == b@.len(),
            forall|k: int| 0 <= k < i ==> a@[k] == b@[k],
        decreases a.len() - i,
    {
        if a[i] != b[i] {
            return false;
        }
        i += 1;
    }
    proof {
        assert(a@ =~= b@);
    }
    true
}

/// Appends the wire form of `t` to `out`, escaping `&`, `<` and `>`.
pub fn write_escaped(t: &Vec<char>, out: &mut Vec<char>)
    ensures
        final(out)@ == old(out)@ + esc(t@),
{
    let mut i: usize = 0;
    proof {
        assert(esc(t@.take(0)) =~= Seq::<char>::empty());
        assert(out@ =~= old(out)@ + esc(t@.take(0)));
    }
    while i < t.len()
        invariant
            i <= t.len(),
            out@ == old(out)@ + esc(t@.take(i as int)),
        decreases t.len() - i,
    {
        let c = t[i];
        proof {
            assert(t@.take(i + 1).drop_last() =~= t@.take(i as int));
            assert(t@.take(i + 1).last() == t@[i as int]);
            assert(esc(t@.take(i + 1)) == esc(t@.take(i as int)) + esc_char(t@[i as int]));
        }
        if c == '&' {
            out.push('&');
            out.push('a');
            out.push('m');
            out.push('p');
            out.push(';');
        } else if c == '<' {
            out.push('&');
            out.push('l');
            out.push('t');
            out.push(';');
        } else if c == '>' {
            out.push('&');
            out.push('g');
            out.push('t');
            out.push(';');
        } else {
            out.push(c);
        }
        proof {
            assert(out@ =~= old(out)@ + esc(t@.take(i + 1)));
        }
        i += 1;
    }
    proof {
        assert(t@.take(t@.len() as int) =~= t@);
    }
}

/// Appends the characters of `v` to `out`.
pub fn write_chars(v: &Vec<char>, out: &mut Vec<char>)
    ensures
        final(out)@ == old(out)@ + v@,
{
    let mut j: usize = 0;
    while j < v.len()
        invariant
            j <= v.len(),
            out@ == old(out)@ + v@.take(j as int),
        decreases v.len() - j,
    {
        out.push(v[j]);
        proof {
            assert(v@.take(j + 1) =~= v@.take(j as int).push(v@[j as int]));
            assert(out@ =~= old(out)@ + v@.take(j + 1));
        }
        j += 1;
    }
    proof {
        assert(v@.take(v@.len() as int) =~= v@);
    }
}

/// Appends the exact wire text of a node to `out`.
#[verifier::loop_isolation(false)]
pub fn write_node(n: &XmlNode, out: &mut Vec<char>)
    ensures
        final(out)@ == old(out)@ + ser_node(n@),
    decreases *n,
{
    out.push('<');
    write_chars(&n.name, out);
    proof {
        assert(out@ =~= old(out)@ + seq!['<'] + n.name@);
    }
    match &n.content {
        XmlContent::Empty => {
            out.push('/');
            out.push('>');
            proof {
                assert(out@ =~= old(out)@ + ser_node(n@));
            }
        },
        XmlContent::Text(t) => {
            out.push('>');
            proof {
                assert(out@ =~= old(out)@ + seq!['<'] + n.name@ + seq!['>']);
            }
            write_escaped(t, out);
            out.push('<');
            out.push('/');
            write_chars(&n.name, out);
            out.push('>');
            proof {
                assert(out@ =~= old(out)@ + ser_node(n@));
            }
        },
        XmlContent::Elems(es) => {
            out.push('>');
            proof {
                assert(out@ =~= old(out)@ + seq!['<'] + n.name@ + seq!['>']);
                lemma_nodes_view(es@);
                assert(ser_nodes(nodes_view(es@).take(0)) =~= Seq::<char>::empty());
                assert(nodes_view(es@).take(0) =~= Seq::<XNode>::empty());
            }
            let mut i: usize = 0;
            while i < es.len()
                invariant
                    i <= es.len(),
                    nodes_view(es@).len() == es@.len(),
                    forall|k: int| 0 <= k < es@.len() ==> nodes_view(es@)[k] == es@[k]@,
                    out@ == old(out)@ + seq!['<'] + n.name@ + seq!['>'] + ser_nodes(
                        nodes_view(es@).take(i as int),
                    ),
                decreases es.len() - i,
            {
                proof {
                    assert(n.content == XmlContent::Elems(*es));
                    assert(decreases_to!(*n => n.content));
                    assert(decreases_to!(n.content => n.content->Elems_0));
                    assert(decreases_to!(*es => es@[i as int]));
                }
                write_node(&es[i], out);
                proof {
                    let vs = nodes_view(es@);
                    assert(vs.take(i + 1).drop_last() =~= vs.take(i as int));
                    assert(vs.take(i + 1).last() == vs[i as int]);
                    assert(ser_nodes(vs.take(i + 1)) == ser_nodes(vs.take(i as int)) + ser_node(
                        vs[i as int],
                    ));
                    assert(out@ =~= old(out)@ + seq!['<'] + n.name@ + seq!['>'] + ser_nodes(
                        vs.take(i + 1),
                    ));
                }
                i += 1;
            }
            out.push('<');
            out.push('/');
            proof {
                assert(nodes_view(es@).take(es@.len() as int) =~= nodes_view(es@));
            }
            write_chars(&n.name, out);
            out.push('>');
            proof {
                assert(out@ =~= old(out)@ + ser_node(n@));
            }
        },
    }
}

/// A character allowed in an element name.
pub open spec fn is_name_char(c: char) -> bool {
    ('a' <= c && c <= 'z') || ('A' <= c && c <= 'Z') || is_digit_c(c) || c == '.' || c == '_'
        || c == '-'
}

pub open spec fn is_digit_c(c: char) -> bool {
    '0' <= c && c <= '9'
}

fn name_char(c: char) -> (r: bool)
    ensures
        r == is_name_char(c),
{
    ('a' <= c && c <= 'z') || ('A' <= c && c <= 'Z') || ('0' <= c && c <= '9') || c == '.' || c
        == '_' || c == '-'
}

/// Whitespace accepted around and between elements.
pub open spec fn is_space(c: char) -> bool {
    c == ' ' || c == '\t' || c == '\r' || c == '\n'
}

fn space_char(c: char) -> (r: bool)
    ensures
        r == is_space(c),
{
    c == ' ' || c == '\t' || c == '\r' || c == '\n'
}

/// Only whitespace characters.
pub open spec fn all_space(t: Seq<char>) -> bool {
    forall|i: int| 0 <= i < t.len() ==> is_space(#[trigger] t[i])
}

/// Decides whether a text holds only whitespace.
#[verifier::loop_isolation(false)]
pub fn chars_all_space(t: &Vec<char>) -> (r: bool)
    ensures
        r == all_space(t@),
{
    let mut i: usize = 0;
    while i < t.len()
        invariant
            i <= t.len(),
            forall|k: int| 0 <= k < i ==> is_space(#[trigger] t@[k]),
        decreases t.len() - i,
    {
        if !space_char(t[i]) {
            return false;
        }
        i += 1;
    }
    true
}

/// How many whitespace characters stand at `i`.
pub open spec fn ws_count(s: Seq<char>, i: int) -> nat
    decreases s.len() - i,
{
    if i < 0 || i >= s.len() {
        0
    } else if is_space(s[i]) {
        1 + ws_count(s, i + 1)
    } else {
        0
    }
}

/// How many name characters stand at `i`.
pub open spec fn name_count(s: Seq<char>, i: int) -> nat
    decreases s.len() - i,
{
    if i < 0 || i >= s.len() {
        0
    } else if is_name_char(s[i]) {
        1 + name_count(s, i + 1)
    } else {
        0
    }
}

/// The entity reference standing at the `&` in `i`, if any.
pub open spec fn sp_entity(s: Seq<char>, i: int) -> Option<(char, int)> {
    if i < 0 || i >= s.len() {
        None
    } else if s.len() - i > 3 && s[i + 1] == 'l' && s[i + 2] == 't' && s[i + 3] == ';' {
        Some(('<', i + 4))
    } else if s.len() - i > 3 && s[i + 1] == 'g' && s[i + 2] == 't' && s[i + 3] == ';' {
        Some(('>', i + 4))
    } else if s.len() - i > 4 && s[i + 1] == 'a' && s[i + 2] == 'm' && s[i + 3] == 'p' && s[i + 4]
        == ';' {
        Some(('&', i + 5))
    } else if s.len() - i > 5 && s[i + 1] == 'q' && s[i + 2] == 'u' && s[i + 3] == 'o' && s[i + 4]
        == 't' && s[i + 5] == ';' {
        Some(('"', i + 6))
    } else if s.len() - i > 5 && s[i + 1] == 'a' && s[i + 2] == 'p' && s[i + 3] == 'o' && s[i + 4]
        == 's' && s[i + 5] == ';' {
        Some(('\'', i + 6))
    } else {
        None
    }
}

/// The unescaped text running from `i` up to the next `<`, with its end
/// position; nothing where an entity is malformed or the text never ends.
pub open spec fn sp_text(s: Seq<char>, i: int) -> Option<(Seq<char>, int)>
    decreases s.len() - i,
{
    if i < 0 || i >= s.len() {
        None
    } else if s[i] == '<' {
        Some((Seq::empty(), i))
    } else if s[i] == '&' {
        match sp_entity(s, i) {
            Some((c, j)) => if j <= i {
                None
            } else {
                match sp_text(s, j) {
                    Some((t, k)) => Some((seq![c] + t, k)),
                    None => None,
                }
            },
            None => None,
        }
    } else {
        match sp_text(s, i + 1) {
            Some((t, k)) => Some((seq![s[i]] + t, k)),
            None => None,
        }
    }
}

/// The closing tag `</name>` standing at `i`: the position just past it.
pub open spec fn sp_close(s: Seq<char>, i: int, name: Seq<char>) -> Option<int> {
    if i < 0 || i + 1 >= s.len() || s[i] != '<' || s[i + 1] != '/' {
        None
    } else {
        let e = i + 2 + name.len();
        if e >= s.len() {
            None
        } else if s.subrange(i + 2, e) == name && s[e] == '>' {
            Some(e + 1)
        } else {
            None
        }
    }
}

/// One element standing at `pos`, with the position just past its closing
/// tag.  Whitespace between child elements is skipped; whitespace-only
/// content is kept as text, preserved verbatim.
pub open spec fn sp_node(s: Seq<char>, pos: int) -> Option<(XNode, int)>
    decreases s.len() - pos, 0int,
{
    if pos < 0 || pos >= s.len() || s[pos] != '<' {
        None
    } else {
        let ne = pos + 1 + name_count(s, pos + 1);
        let name = s.subrange(pos + 1, ne);
        if name.len() == 0 || ne >= s.len() {
            None
        } else if s[ne] == '/' {
            if ne + 1 < s.len() && s[ne + 1] == '>' {
                Some((XNode { name, content: XContent::Empty }, ne + 2))
            } else {
                None
            }
        } else if s[ne] != '>' {
            None
        } else {
            let body = ne + 1;
            let ci = body + ws_count(s, body);
            if ci + 1 < s.len() && s[ci] == '<' && s[ci + 1] == '/' {
                match sp_close(s, ci, name) {
                    Some(j) => if ci == body {
                        Some((XNode { name, content: XContent::Empty }, j))
                    } else {
                        // whitespace-only content is kept: the tag-aware
                        // decoder decides whether it is text or nothing
                        Some((XNode { name, content: XContent::Text(s.subrange(body, ci)) }, j))
                    },
                    None => None,
                }
            } else if ci < s.len() && s[ci] == '<' {
                match sp_children(s, ci) {
                    Some((kids, cpos)) => match sp_close(s, cpos, name) {
                        Some(j) => Some((XNode { name, content: XContent::Elems(kids) }, j)),
                        None => None,
                    },
                    None => None,
                }
            } else {
                match sp_text(s, body) {
                    Some((t, k)) => if t.len() == 0 {
                        None
                    } else {
                        match sp_close(s, k, name) {
                            Some(j) => Some((XNode { name, content: XContent::Text(t) }, j)),
                            None => None,
                        }
                    },
                    None => None,
                }
            }
        }
    }
}

/// The child elements running from `i` up to the closing tag, whitespace
/// between them skipped; stops just before the `</`.
pub open spec fn sp_children(s: Seq<char>, i: int) -> Option<(Seq<XNode>, int)>
    decreases s.len() - i, 1int,
{
    if i < 0 || i + 1 >= s.len() || s[i] != '<' {
        None
    } else if s[i + 1] == '/' {
        Some((Seq::empty(), i))
    } else {
        match sp_node(s, i) {
            Some((kid, j)) => if j <= i {
                None
            } else {
                let j2 = j + ws_count(s, j) as int;
                if j2 >= s.len() {
                    None
                } else {
                    match sp_children(s, j2) {
                        Some((rest, e)) => Some((seq![kid] + rest, e)),
                        None => None,
                    }
                }
            },
            None => None,
        }
    }
}

/// The position just past the `?>` that closes a document prologue.
pub open spec fn pro_end(s: Seq<char>, i: int) -> Option<int>
    decreases s.len() - i,
{
    if i < 0 || i + 2 > s.len() {
        None
    } else if s[i] == '?' && s[i + 1] == '>' {
        Some(i + 2)
    } else {
        pro_end(s, i + 1)
    }
}

/// A whole document: optional whitespace, an optional `<?xml ...?>`
/// prologue, the root element, trailing whitespace, nothing else.
pub open spec fn sp_doc(s: Seq<char>) -> Option<XNode> {
    let i0 = ws_count(s, 0) as int;
    if i0 + 1 < s.len() && s[i0] == '<' && s[i0 + 1] == '?' {
        match pro_end(s, i0 + 2) {
            Some(p) => sp_root(s, p + ws_count(s, p) as int),
            None => None,
        }
    } else {
        sp_root(s, i0)
    }
}

/// The root element at `start` followed only by whitespace.
pub open spec fn sp_root(s: Seq<char>, start: int) -> Option<XNode> {
    match sp_node(s, start) {
        Some((n, j)) => if j + ws_count(s, j) as int == s.len() {
            Some(n)
        } else {
            None
        },
        None => None,
    }
}

/// Skips whitespace from `i`.
#[verifier::loop_isolation(false)]
fn skip_ws(s: &Vec<char>, i: usize) -> (j: usize)
    requires
        i <= s@.len(),
    ensures
        i <= j <= s@.len(),
        j as int == i + ws_count(s@, i as int),
{
    let n = s.len();
    let mut j = i;
    while j < n && space_char(s[j])
        invariant
            i <= j <= n,
            i + ws_count(s@, i as int) == j + ws_count(s@, j as int),
        decreases n - j,
    {
        j += 1;
    }
    j
}

/// Reads one element starting at `pos`.  On success the returned position
/// stands just past the element's closing tag.
#[verifier::loop_isolation(false)]
pub fn parse_node(s: &Vec<char>, pos: usize) -> (r: Option<(XmlNode, usize)>)
    requires
        pos <= s@.len(),
    ensures
        match r {
            Some((node, j)) => sp_node(s@, pos as int) == Some((node@, j as int)) && pos < j
                <= s@.len(),
            None => sp_node(s@, pos as int) is None,
        },
    decreases s@.len() - pos,
{
    let n = s.len();
    if pos >= n || s[pos] != '<' {
        return None;
    }
    // element name
    let mut i = pos + 1;
    let mut name: Vec<char> = Vec::new();
    while i < n && name_char(s[i])
        invariant
            pos + 1 <= i <= n,
            (pos + 1) + name_count(s@, pos + 1) == i + name_count(s@, i as int),
            name@ =~= s@.subrange(pos + 1, i as int),
        decreases n - i,
    {
        name.push(s[i]);
        proof {
            assert(name@ =~= s@.subrange(pos + 1, i + 1));
        }
        i += 1;
    }
    proof {
        assert(i as int == pos + 1 + name_count(s@, pos + 1));
    }
    if name.len() == 0 || i >= n {
        return None;
    }
    if s[i] == '/' {
        // self-closing form
        if n - i > 1 && s[i + 1] == '>' {
            return Some((XmlNode { name, content: XmlContent::Empty }, i + 2));
        }
        return None;
    }
    if s[i] != '>' {
        return None;
    }
    let body = i + 1;
    let ci = skip_ws(s, body);
    if n - ci > 1 && s[ci] == '<' && s[ci + 1] == '/' {
        // open/close pair with nothing but whitespace between: an empty
        // element, or whitespace-only text kept verbatim
        match expect_close(s, ci, &name) {
            Some(j) => {
                if ci == body {
                    return Some((XmlNode { name, content: XmlContent::Empty }, j));
                }
                let mut ws: Vec<char> = Vec::new();
                let mut k = body;
                while k < ci
                    invariant
                        body <= k <= ci <= n,
                        n == s@.len(),
                        ws@ =~= s@.subrange(body as int, k as int),
                    decreases ci - k,
                {
                    ws.push(s[k]);
                    proof {
                        assert(ws@ =~= s@.subrange(body as int, k + 1));
                    }
                    k += 1;
                }
                return Some((XmlNode { name, content: XmlContent::Text(ws) }, j));
            },
            None => {
                return None;
            },
        }
    }
    if ci < n && s[ci] == '<' {
        // child elements until the closing tag, whitespace between skipped
        let mut kids: Vec<XmlNode> = Vec::new();
        let mut cur = ci;
        loop
            invariant
                pos < ci <= cur <= n,
                n == s@.len(),
                ({
                    match sp_children(s@, cur as int) {
                        Some((rest, e)) => sp_children(s@, ci as int) == Some(
                            (nodes_view(kids@) + rest, e),
                        ),
                        None => sp_children(s@, ci as int) is None,
                    }
                }),
            decreases n - cur,
        {
            proof {
                lemma_nodes_view(kids@);
            }
            if n - cur > 1 && s[cur] == '<' && s[cur + 1] == '/' {
                proof {
                    assert(sp_children(s@, cur as int) == Some(
                        (Seq::<XNode>::empty(), cur as int),
                    ));
                    assert(nodes_view(kids@) + Seq::<XNode>::empty() =~= nodes_view(kids@));
                }
                match expect_close(s, cur, &name) {
                    Some(j) => {
                        return Some((XmlNode { name, content: XmlContent::Elems(kids) }, j));
                    },
                    None => {
                        return None;
                    },
                }
            }
            match parse_node(s, cur) {
                Some((kid, j)) => {
                    let j2 = skip_ws(s, j);
                    proof {
                        let ghost kv = nodes_view(kids@);
                        match sp_children(s@, j2 as int) {
                            Some((rest, e)) => {
                                assert(sp_children(s@, cur as int) == Some(
                                    (seq![kid@] + rest, e),
                                ));
                                assert(kv.push(kid@) + rest =~= kv + (seq![kid@] + rest));
                                assert(kids@.push(kid).drop_last() =~= kids@);
                                assert(kids@.push(kid).last() == kid);
                                assert(nodes_view(kids@.push(kid)) =~= kv.push(kid@));
                            },
                            None => {
                                assert(sp_children(s@, cur as int) is None);
                            },
                        }
                    }
                    kids.push(kid);
                    cur = j2;
                },
                None => {
                    proof {
                        assert(sp_children(s@, cur as int) is None);
                    }
                    return None;
                },
            }
        }
    }
    // text content up to the closing tag, unescaping entities
    let mut text: Vec<char> = Vec::new();
    let mut cur = body;
    proof {
        assert(!(ci < n && s@[ci as int] == '<'));
    }
    while cur < n && s[cur] != '<'
        invariant
            pos < body <= cur <= n,
            n == s@.len(),
            ({
                match sp_text(s@, cur as int) {
                    Some((t, k)) => sp_text(s@, body as int) == Some((text@ + t, k)),
                    None => sp_text(s@, body as int) is None,
                }
            }),
        decreases n - cur,
    {
        let c = s[cur];
        if c == '&' {
            match read_entity(s, cur) {
                Some((u, j)) => {
                    proof {
                        match sp_text(s@, j as int) {
                            Some((t, k)) => {
                                assert(sp_text(s@, cur as int) == Some((seq![u] + t, k)));
                                assert(text@.push(u) + t =~= text@ + (seq![u] + t));
                            },
                            None => {
                                assert(sp_text(s@, cur as int) is None);
                            },
                        }
                    }
                    text.push(u);
                    cur = j;
                },
                None => {
                    proof {
                        assert(sp_text(s@, cur as int) is None);
                    }
                    return None;
                },
            }
        } else {
            proof {
                match sp_text(s@, cur + 1) {
                    Some((t, k)) => {
                        assert(sp_text(s@, cur as int) == Some((seq![c] + t, k)));
                        assert(text@.push(c) + t =~= text@ + (seq![c] + t));
                    },
                    None => {
                        assert(sp_text(s@, cur as int) is None);
                    },
                }
            }
            text.push(c);
            cur += 1;
        }
    }
    if cur >= n {
        return None;
    }
    proof {
        assert(sp_text(s@, cur as int) == Some((Seq::<char>::empty(), cur as int)));
        assert(text@ + Seq::<char>::empty() =~= text@);
    }
    if text.len() == 0 {
        return None;
    }
    match expect_close(s, cur, &name) {
        Some(j) => Some((XmlNode { name, content: XmlContent::Text(text) }, j)),
        None => None,
    }
}

/// Reads one entity reference starting at the `&` in `pos`.
fn read_entity(s: &Vec<char>, pos: usize) -> (r: Option<(char, usize)>)
    requires
        pos < s@.len(),
    ensures
        match r {
            Some((c, j)) => sp_entity(s@, pos as int) == Some((c, j as int)) && pos < j
                <= s@.len(),
            None => sp_entity(s@, pos as int) is None,
        },
{
    let n = s.len();
    let left = n - pos;
    if left > 3 && s[pos + 1] == 'l' && s[pos + 2] == 't' && s[pos + 3] == ';' {
        return Some(('<', pos + 4));
    }
    if left > 3 && s[pos + 1] == 'g' && s[pos + 2] == 't' && s[pos + 3] == ';' {
        return Some(('>', pos + 4));
    }
    if left > 4 && s[pos + 1] == 'a' && s[pos + 2] == 'm' && s[pos + 3] == 'p' && s[pos + 4]
        == ';' {
        return Some(('&', pos + 5));
    }
    if left > 5 && s[pos + 1] == 'q' && s[pos + 2] == 'u' && s[pos + 3] == 'o' && s[pos + 4]
        == 't' && s[pos + 5] == ';' {
        return Some(('"', pos + 6));
    }
    if left > 5 && s[pos + 1] == 'a' && s[pos + 2] == 'p' && s[pos + 3] == 'o' && s[pos + 4]
        == 's' && s[pos + 5] == ';' {
        return Some(('\'', pos + 6));
    }
    None
}

/// Reads the closing tag `</name>` standing at `pos`.
#[verifier::loop_isolation(false)]
fn expect_close(s: &Vec<char>, pos: usize, name: &Vec<char>) -> (r: Option<usize>)
    requires
        pos <= s@.len(),
    ensures
        match r {
            Some(j) => sp_close(s@, pos as int, name@) == Some(j as int) && pos < j <= s@.len(),
            None => sp_close(s@, pos as int, name@) is None,
        },
{
    let n = s.len();
    if !(n - pos > 1 && s[pos] == '<' && s[pos + 1] == '/') {
        return None;
    }
    let mut k: usize = 0;
    while k < name.len()
        invariant
            k <= name@.len(),
            n == s@.len(),
            pos + 2 + k <= n,
            forall|m: int| 0 <= m < k ==> s@[pos + 2 + m] == name@[m],
        decreases name@.len() - k,
    {
        if n - (pos + 2) <= k {
            proof {
                assert(pos + 2 + name@.len() >= n);
            }
            return None;
        }
        if s[pos + 2 + k] != name[k] {
            proof {
                if pos + 2 + name@.len() < n {
                    let sub = s@.subrange(pos + 2, pos + 2 + name@.len());
                    assert(sub[k as int] == s@[pos + 2 + k]);
                    assert(sub != name@);
                }
            }
            return None;
        }
        k += 1;
    }
    let end = pos + 2 + name.len();
    if end < n && s[end] == '>' {
        proof {
            assert(s@.subrange(pos + 2, end as int) =~= name@);
        }
        Some(end + 1)
    } else {
        None
    }
}

/// Reads a whole document: an optional `<?xml ...?>` prologue, the root
/// element, and surrounding whitespace; nothing may follow.
#[verifier::loop_isolation(false)]
pub fn parse_document(s: &str) -> (r: Option<XmlNode>)
    ensures
        match r {
            Some(node) => sp_doc(s@) == Some(node@),
            None => sp_doc(s@) is None,
        },
{
    let cs = crate::text::chars_of(s);
    let n = cs.len();
    let i0 = skip_ws(&cs, 0);
    let start: usize;
    if n - i0 > 1 && cs[i0] == '<' && cs[i0 + 1] == '?' {
        // skip the prologue up to its closing `?>`
        let mut j = i0 + 2;
        loop
            invariant
                i0 + 2 <= j <= n,
                n == cs@.len(),
                pro_end(cs@, i0 + 2) == pro_end(cs@, j as int),
            decreases n - j,
        {
            if n - j < 2 {
                proof {
                    assert(pro_end(cs@, j as int) is None);
                }
                return None;
            }
            if cs[j] == '?' && cs[j + 1] == '>' {
                break;
            }
            j += 1;
        }
        proof {
            assert(pro_end(cs@, i0 + 2) == Some(j + 2));
        }
        start = skip_ws(&cs, j + 2);
    } else {
        start = i0;
    }
    match parse_node(&cs, start) {
        Some((node, j)) => {
            let j2 = skip_ws(&cs, j);
            if j2 == n {
                Some(node)
            } else {
                None
            }
        },
        None => None,
    }
}

} // verus!
