//! Tokenizer and tree builder for a small subset of HTML.
use vstd::prelude::*;
use crate::dom::{Attrs, Kind, Node, Tree, attrs_view, trees};
use crate::text::{all_ws, collapse_state, lower, chars_of, collapse_range, collapse_ws, copy_string, is_blank, is_whitespace, is_ws, lower_seq, lower_string_of, str_is, string_of, sub_vec, trim, trim_range};

verus! {

#[derive(Debug, Clone, PartialEq, Eq)]
pub enum Token {
    OpenTag { name: String, attributes: Vec<(String, String)> },
    CloseTag(String),
    Text(String),
}

/// The model of a token.
pub enum TokenModel {
    Open { name: Seq<char>, attrs: Attrs },
    Close(Seq<char>),
    Text(Seq<char>),
}

impl View for Token {
    type V = TokenModel;

    open spec fn view(&self) -> TokenModel {
        match self {
            Token::OpenTag { name, attributes } => TokenModel::Open {
                name: name@,
                attrs: attrs_view(attributes@),
            },
            Token::CloseTag(n) => TokenModel::Close(n@),
            Token::Text(t) => TokenModel::Text(t@),
        }
    }
}

pub open spec fn tokens_view(v: Seq<Token>) -> Seq<TokenModel> {
    v.map_values(|t: Token| t@)
}

/// The first position at or after `i` that is not whitespace (or the end).
pub open spec fn skip_ws(s: Seq<char>, i: int) -> int
    decreases s.len() - i,
{
    if 0 <= i < s.len() && is_ws(s[i]) {
        skip_ws(s, i + 1)
    } else {
        i
    }
}

/// The first position at or after `i` that is whitespace (or the end).
pub open spec fn next_ws(s: Seq<char>, i: int) -> int
    decreases s.len() - i,
{
    if 0 <= i < s.len() && !is_ws(s[i]) {
        next_ws(s, i + 1)
    } else {
        i
    }
}

/// The first position at or after `i` that ends an attribute name.
pub open spec fn key_end(s: Seq<char>, i: int) -> int
    decreases s.len() - i,
{
    if 0 <= i < s.len() && !is_ws(s[i]) && s[i] != '=' {
        key_end(s, i + 1)
    } else {
        i
    }
}

/// The first position at or after `i` that holds `c` (or the end).
pub open spec fn next_of(s: Seq<char>, c: char, i: int) -> int
    decreases s.len() - i,
{
    if 0 <= i < s.len() && s[i] != c {
        next_of(s, c, i + 1)
    } else {
        i
    }
}

/// An attribute value starting at `i`, quoted or bare, and the position
/// after it.
pub open spec fn attr_value(s: Seq<char>, i: int) -> (Seq<char>, int) {
    if 0 <= i < s.len() && (s[i] == '"' || s[i] == '\'') {
        let e = next_of(s, s[i], i + 1);
        (s.subrange(i + 1, e), if e < s.len() {
            e + 1
        } else {
            s.len() as int
        })
    } else if 0 <= i < s.len() {
        let e = next_ws(s, i);
        (s.subrange(i, e), e)
    } else {
        (Seq::empty(), i)
    }
}

/// The attributes written from position `i` of a tag: `key`, `key=value`,
/// `key="value"` or `key='value'`; names are lower-cased, empty names dropped.
pub open spec fn attrs_from(s: Seq<char>, i: int) -> Attrs
    decreases s.len() - i,
{
    let p = skip_ws(s, i);
    if i < 0 || p >= s.len() {
        Seq::empty()
    } else {
        let ke = key_end(s, p);
        let key = s.subrange(p, ke);
        let q = skip_ws(s, ke);
        let (value, after) = if q < s.len() && s[q] == '=' {
            attr_value(s, skip_ws(s, q + 1))
        } else {
            (Seq::empty(), q)
        };
        let head = if key.len() > 0 {
            seq![(lower_seq(key), value)]
        } else {
            Seq::empty()
        };
        if i < after <= s.len() {
            head + attrs_from(s, after)
        } else {
            head
        }
    }
}

/// The name (lower-cased) and attributes of an opening tag's text.
pub open spec fn open_tag(raw: Seq<char>) -> (Seq<char>, Attrs) {
    let ne = next_ws(raw, 0);
    (lower_seq(raw.subrange(0, ne)), attrs_from(raw, ne))
}

/// `s` without trailing slashes.
pub open spec fn rstrip_slash(s: Seq<char>) -> Seq<char>
    decreases s.len(),
{
    if s.len() > 0 && s.last() == '/' {
        rstrip_slash(s.drop_last())
    } else {
        s
    }
}

/// The first word of `s`, lower-cased (empty when there is none).
pub open spec fn first_word_lower(s: Seq<char>) -> Seq<char> {
    let p = skip_ws(s, 0);
    lower_seq(s.subrange(p, next_ws(s, p)))
}

/// Elements that never have children.
pub open spec fn is_void(name: Seq<char>) -> bool {
    name == "br"@ || name == "hr"@ || name == "img"@ || name == "meta"@ || name == "link"@
        || name == "input"@
}

/// The tokens of the text between `<` and `>`: none for an empty tag or a
/// `<!...>` declaration, a closing token for `</name>`, otherwise an opening
/// token, followed by its closing token when the tag ends in `/` or names a
/// void element.
pub open spec fn tag_tokens(raw: Seq<char>) -> Seq<TokenModel> {
    let tag = trim(raw);
    if tag.len() == 0 || tag[0] == '!' {
        Seq::empty()
    } else if tag[0] == '/' {
        seq![TokenModel::Close(first_word_lower(tag.drop_first()))]
    } else {
        let self_closing = tag.last() == '/';
        let (name, attrs) = open_tag(rstrip_slash(tag));
        if name.len() == 0 {
            Seq::empty()
        } else if self_closing || is_void(name) {
            seq![TokenModel::Open { name, attrs }, TokenModel::Close(name)]
        } else {
            seq![TokenModel::Open { name, attrs }]
        }
    }
}

/// A text token for a run of text that is not blank, with its whitespace
/// collapsed.
pub open spec fn text_tokens(t: Seq<char>) -> Seq<TokenModel> {
    if all_ws(t) {
        Seq::empty()
    } else {
        seq![TokenModel::Text(collapse_ws(t))]
    }
}

/// The tokens of `s` from position `i`, where a run of text starts: the
/// text up to the next `<`, then the tag up to the next `>` (or the end).
pub open spec fn tokens_from(s: Seq<char>, i: int) -> Seq<TokenModel>
    decreases s.len() - i,
{
    if i < 0 || i > s.len() {
        Seq::empty()
    } else {
        let j = next_of(s, '<', i);
        let text = text_tokens(s.subrange(i, j));
        if j >= s.len() {
            text
        } else {
            let k = next_of(s, '>', j + 1);
            let tag = tag_tokens(s.subrange(j + 1, k));
            if i < k + 1 <= s.len() {
                text + tag + tokens_from(s, k + 1)
            } else {
                text + tag
            }
        }
    }
}

pub open spec fn tokenize_spec(s: Seq<char>) -> Seq<TokenModel> {
    tokens_from(s, 0)
}

/// The nodes read from token `pos` up to the closing token of `until` (or
/// any other closing token, or the end), and the position after them; the
/// closing token is consumed only when it closes `until`.
pub open spec fn nodes_from(toks: Seq<TokenModel>, pos: int, until: Option<Seq<char>>) -> (
    Seq<Tree>,
    int,
)
    decreases toks.len() - pos,
{
    if pos < 0 || pos >= toks.len() {
        (Seq::empty(), pos)
    } else {
        match toks[pos] {
            TokenModel::Close(n) => (Seq::empty(), if until == Some(n) {
                pos + 1
            } else {
                pos
            }),
            TokenModel::Text(t) => {
                let (rest, p) = nodes_from(toks, pos + 1, until);
                (seq![Tree { kind: Kind::Text(t), children: Seq::empty() }] + rest, p)
            },
            TokenModel::Open { name, attrs } => {
                let (kids, p1) = nodes_from(toks, pos + 1, Some(name));
                if pos < p1 <= toks.len() {
                    let (rest, p2) = nodes_from(toks, p1, until);
                    (
                        seq![Tree { kind: Kind::Element { tag: name, attrs }, children: kids }]
                            + rest,
                        p2,
                    )
                } else {
                    (Seq::empty(), pos)
                }
            },
        }
    }
}

/// The document tree an HTML text denotes.
pub open spec fn document_of(s: Seq<char>) -> Tree {
    Tree { kind: Kind::Document, children: nodes_from(tokenize_spec(s), 0, None).0 }
}

/// Parses an HTML text into a document tree. Unclosed elements end where
/// their parent ends; stray closing tags end the element being read.
pub fn parse(input: &str) -> (r: Node)
    ensures
        r@ == document_of(input@),
{
    let tokens = tokenize(input);
    let mut parser = Parser::new(tokens);
    parser.parse_document()
}

fn skip_ws_exec(s: &Vec<char>, i: usize) -> (r: usize)
    requires
        i <= s.len(),
    ensures
        r == skip_ws(s@, i as int),
        i <= r <= s.len(),
        r < s.len() ==> !is_ws(s@[r as int]),
{
    let mut p = i;
    while p < s.len() && is_whitespace(s[p])
        invariant
            i <= p <= s.len(),
            skip_ws(s@, i as int) == skip_ws(s@, p as int),
        decreases s.len() - p,
    {
        p = p + 1;
    }
    p
}

fn next_ws_exec(s: &Vec<char>, i: usize) -> (r: usize)
    requires
        i <= s.len(),
    ensures
        r == next_ws(s@, i as int),
        i <= r <= s.len(),
        i < s.len() && !is_ws(s@[i as int]) ==> r > i,
{
    let mut p = i;
    while p < s.len() && !is_whitespace(s[p])
        invariant
            i <= p <= s.len(),
            next_ws(s@, i as int) == next_ws(s@, p as int),
        decreases s.len() - p,
    {
        p = p + 1;
    }
    p
}

fn key_end_exec(s: &Vec<char>, i: usize) -> (r: usize)
    requires
        i <= s.len(),
    ensures
        r == key_end(s@, i as int),
        i <= r <= s.len(),
        r == i && i < s.len() ==> is_ws(s@[i as int]) || s@[i as int] == '=',
{
    let mut p = i;
    while p < s.len() && !is_whitespace(s[p]) && s[p] != '='
        invariant
            i <= p <= s.len(),
            key_end(s@, i as int) == key_end(s@, p as int),
        decreases s.len() - p,
    {
        p = p + 1;
    }
    p
}

fn next_of_exec(s: &Vec<char>, c: char, i: usize) -> (r: usize)
    requires
        i <= s.len(),
    ensures
        r == next_of(s@, c, i as int),
        i <= r <= s.len(),
{
    let mut p = i;
    while p < s.len() && s[p] != c
        invariant
            i <= p <= s.len(),
            next_of(s@, c, i as int) == next_of(s@, c, p as int),
        decreases s.len() - p,
    {
        p = p + 1;
    }
    p
}

/// Splits an HTML text into tokens.
pub fn tokenize(input: &str) -> (r: Vec<Token>)
    ensures
        tokens_view(r@) == tokenize_spec(input@),
{
    let s = chars_of(input);
    let mut tokens: Vec<Token> = Vec::new();
    let mut i: usize = 0;
    proof {
        assert(tokens_view(tokens@) =~= Seq::<TokenModel>::empty());
    }
    loop
        invariant
            i <= s.len(),
            s@ == input@,
            tokens_view(tokens@) + tokens_from(s@, i as int) == tokens_from(s@, 0),
        decreases s.len() - i,
    {
        let j = next_of_exec(&s, '<', i);
        let ghost before = tokens_view(tokens@);
        if !is_blank(&s, i, j) {
            let t = collapse_range(&s, i, j);
            tokens.push(Token::Text(t));
        }
        proof {
            assert(tokens_view(tokens@) =~= before + text_tokens(s@.subrange(i as int, j as int)));
        }
        if j >= s.len() {
            proof {
                assert(tokens_from(s@, i as int) == text_tokens(s@.subrange(i as int, j as int)));
                assert(tokens_view(tokens@) =~= tokens_from(s@, 0));
            }
            return tokens;
        }
        let k = next_of_exec(&s, '>', j + 1);
        let raw = sub_vec(&s, j + 1, k);
        let ghost mid = tokens_view(tokens@);
        push_tag_tokens(&raw, &mut tokens);
        proof {
            assert(tokens_view(tokens@) =~= mid + tag_tokens(s@.subrange(j + 1, k as int)));
        }
        if k >= s.len() {
            proof {
                assert(tokens_view(tokens@) =~= tokens_from(s@, 0));
            }
            return tokens;
        }
        proof {
            assert(tokens_view(tokens@) + tokens_from(s@, k + 1) =~= tokens_from(s@, 0));
        }
        i = k + 1;
    }
}

/// Appends the tokens of one tag's text.
fn push_tag_tokens(raw: &Vec<char>, tokens: &mut Vec<Token>)
    ensures
        tokens_view(final(tokens)@) == tokens_view(old(tokens)@) + tag_tokens(raw@),
{
    let ghost old_view = tokens_view(tokens@);
    let (a, b) = trim_range(raw, 0, raw.len());
    assert(raw@.subrange(0, raw.len() as int) =~= raw@);
    let tag = sub_vec(raw, a, b);
    if tag.len() == 0 || tag[0] == '!' {
        assert(tokens_view(tokens@) =~= old_view + tag_tokens(raw@));
        return;
    }
    if tag[0] == '/' {
        let rest = sub_vec(&tag, 1, tag.len());
        assert(rest@ =~= tag@.drop_first());
        let p = skip_ws_exec(&rest, 0);
        let e = next_ws_exec(&rest, p);
        let name = lower_string_of(&rest, p, e);
        tokens.push(Token::CloseTag(name));
        assert(tokens_view(tokens@) =~= old_view + tag_tokens(raw@));
        return;
    }
    let self_closing = tag[tag.len() - 1] == '/';
    let mut end = tag.len();
    assert(tag@.subrange(0, end as int) =~= tag@);
    while end > 0 && tag[end - 1] == '/'
        invariant
            end <= tag.len(),
            rstrip_slash(tag@) == rstrip_slash(tag@.subrange(0, end as int)),
        decreases end,
    {
        assert(tag@.subrange(0, end as int).drop_last() =~= tag@.subrange(0, end - 1));
        end = end - 1;
    }
    assert(tag@.subrange(0, end as int) == rstrip_slash(tag@));
    let body = sub_vec(&tag, 0, end);
    let (name, attributes) = parse_open_tag(&body);
    if name.as_str().is_empty() {
        assert(tokens_view(tokens@) =~= old_view + tag_tokens(raw@));
        return;
    }
    let void = is_void_tag(&name);
    if self_closing || void {
        let close_name = copy_string(&name);
        tokens.push(Token::OpenTag { name, attributes });
        tokens.push(Token::CloseTag(close_name));
    } else {
        tokens.push(Token::OpenTag { name, attributes });
    }
    assert(tokens_view(tokens@) =~= old_view + tag_tokens(raw@));
}

fn is_void_tag(name: &String) -> (r: bool)
    ensures
        r == is_void(name@),
{
    let n = name.as_str();
    str_is(n, "br") || str_is(n, "hr") || str_is(n, "img") || str_is(n, "meta") || str_is(n, "link")
        || str_is(n, "input")
}

/// The name and attributes of an opening tag's text.
fn parse_open_tag(raw: &Vec<char>) -> (r: (String, Vec<(String, String)>))
    ensures
        (r.0@, attrs_view(r.1@)) == open_tag(raw@),
{
    let ne = next_ws_exec(raw, 0);
    let name = lower_string_of(raw, 0, ne);
    let mut attributes: Vec<(String, String)> = Vec::new();
    let mut pos = ne;
    proof {
        assert(attrs_view(attributes@) =~= Seq::<(Seq<char>, Seq<char>)>::empty());
    }
    loop
        invariant
            ne <= pos <= raw.len(),
            ne == next_ws(raw@, 0),
            name@ == lower_seq(raw@.subrange(0, ne as int)),
            attrs_view(attributes@) + attrs_from(raw@, pos as int) == attrs_from(raw@, ne as int),
        decreases raw.len() - pos,
    {
        let ghost before = attrs_view(attributes@);
        let p = skip_ws_exec(raw, pos);
        if p >= raw.len() {
            proof {
                assert(attrs_from(raw@, pos as int) =~= Seq::<(Seq<char>, Seq<char>)>::empty());
                assert(attrs_view(attributes@) =~= attrs_from(raw@, ne as int));
                assert(name@ == open_tag(raw@).0);
            }
            return (name, attributes);
        }
        let ke = key_end_exec(raw, p);
        let q = skip_ws_exec(raw, ke);
        let mut value = String::new();
        let mut after = q;
        if q < raw.len() && raw[q] == '=' {
            let vs = skip_ws_exec(raw, q + 1);
            let (val, aft) = parse_attribute_value(raw, vs);
            value = val;
            after = aft;
        }
        proof {
            let (sv, sa) = if q < raw.len() && raw@[q as int] == '=' {
                attr_value(raw@, skip_ws(raw@, q + 1))
            } else {
                (Seq::empty(), q as int)
            };
            assert(value@ == sv && after == sa);
        }
        if ke > p {
            let key = lower_string_of(raw, p, ke);
            attributes.push((key, value));
        }
        proof {
            assert(after > pos);
            assert(attrs_view(attributes@) + attrs_from(raw@, after as int) =~= attrs_from(
                raw@,
                ne as int,
            ));
        }
        pos = after;
    }
}

/// An attribute value starting at `i`, and the position after it.
fn parse_attribute_value(s: &Vec<char>, i: usize) -> (r: (String, usize))
    requires
        i <= s.len(),
        i < s.len() ==> !is_ws(s@[i as int]),
    ensures
        (r.0@, r.1 as int) == attr_value(s@, i as int),
        i < s.len() ==> r.1 > i,
        r.1 <= s.len(),
{
    if i < s.len() && (s[i] == '"' || s[i] == '\'') {
        let quote = s[i];
        let e = next_of_exec(s, quote, i + 1);
        let value = string_of(s, i + 1, e);
        let after = if e < s.len() {
            e + 1
        } else {
            s.len()
        };
        (value, after)
    } else if i < s.len() {
        let e = next_ws_exec(s, i);
        let value = string_of(s, i, e);
        (value, e)
    } else {
        (String::new(), i)
    }
}

/// Builds the tree from a token list.
pub struct Parser {
    pub tokens: Vec<Token>,
    pub pos: usize,
}

impl Parser {
    pub fn new(tokens: Vec<Token>) -> (r: Self)
        ensures
            r.tokens@ == tokens@,
            r.pos == 0,
    {
        Parser { tokens, pos: 0 }
    }

    /// Reads the document from the current token on.
    pub fn parse_document(&mut self) -> (r: Node)
        ensures
            r@ == (Tree {
                kind: Kind::Document,
                children: nodes_from(tokens_view(old(self).tokens@), old(self).pos as int, None).0,
            }),
    {
        let children = self.parse_nodes(None);
        Node::document(children)
    }

    /// Reads nodes until the closing token of `until` (consumed), another
    /// closing token (left in place) or the end.
    pub fn parse_nodes(&mut self, until: Option<&str>) -> (r: Vec<Node>)
        ensures
            final(self).tokens@ == old(self).tokens@,
            old(self).pos <= final(self).pos,
            old(self).pos <= old(self).tokens.len() ==> final(self).pos <= final(self).tokens.len(),
            (trees(r@), final(self).pos as int) == nodes_from(
                tokens_view(old(self).tokens@),
                old(self).pos as int,
                match until {
                    Some(u) => Some(u@),
                    None => None,
                },
            ),
        decreases old(self).tokens.len() - old(self).pos,
    {
        let ghost toks = tokens_view(self.tokens@);
        let ghost u = match until {
            Some(u) => Some(u@),
            None => None::<Seq<char>>,
        };
        let ghost pos0 = self.pos as int;
        let mut nodes: Vec<Node> = Vec::new();
        if self.pos >= self.tokens.len() {
            proof {
                assert(trees(nodes@) =~= Seq::<Tree>::empty());
            }
            return nodes;
        }
        proof {
            assert(trees(nodes@) =~= Seq::<Tree>::empty());
            assert(nodes_from(toks, pos0, u).0 =~= Seq::<Tree>::empty() + nodes_from(
                toks,
                pos0,
                u,
            ).0);
        }
        while self.pos < self.tokens.len()
            invariant
                toks == tokens_view(self.tokens@),
                self.tokens@ == old(self).tokens@,
                pos0 == old(self).pos,
                u == match until {
                    Some(u) => Some(u@),
                    None => None::<Seq<char>>,
                },
                pos0 <= self.pos <= self.tokens.len(),
                trees(nodes@) + nodes_from(toks, self.pos as int, u).0 == nodes_from(
                    toks,
                    pos0,
                    u,
                ).0,
                nodes_from(toks, self.pos as int, u).1 == nodes_from(toks, pos0, u).1,
            decreases self.tokens.len() - self.pos,
        {
            let here = self.pos;
            let ghost before = trees(nodes@);
            match &self.tokens[here] {
                Token::CloseTag(name) => {
                    let closes = match until {
                        Some(u) => str_is(u, name.as_str()),
                        None => false,
                    };
                    if closes {
                        self.pos = self.pos + 1;
                    }
                    proof {
                        assert(trees(nodes@) =~= nodes_from(toks, pos0, u).0);
                    }
                    return nodes;
                },
                Token::OpenTag { name, attributes } => {
                    let name = copy_string(name);
                    let attributes = copy_attrs(attributes);
                    self.pos = self.pos + 1;
                    let children = self.parse_nodes(Some(name.as_str()));
                    let ghost p1 = self.pos;
                    let node = Node::element_with_attrs(name, attributes, children);
                    nodes.push(node);
                    proof {
                        assert(trees(nodes@) =~= before.push(node@));
                        assert(p1 > here);
                    }
                },
                Token::Text(text) => {
                    let text = copy_string(text);
                    self.pos = self.pos + 1;
                    let node = Node::text(text);
                    nodes.push(node);
                    proof {
                        assert(trees(nodes@) =~= before.push(node@));
                    }
                },
            }
            proof {
                let (rest, _) = nodes_from(toks, self.pos as int, u);
                assert(nodes_from(toks, here as int, u).0 =~= seq![trees(nodes@).last()] + rest);
                assert(trees(nodes@) + rest =~= before + nodes_from(toks, here as int, u).0);
            }
        }
        proof {
            assert(trees(nodes@) + Seq::<Tree>::empty() =~= trees(nodes@));
        }
        nodes
    }

    pub fn peek(&self) -> (r: Option<&Token>)
        ensures
            r == (if self.pos < self.tokens@.len() {
                Some(&self.tokens@[self.pos as int])
            } else {
                None
            }),
    {
        if self.pos < self.tokens.len() {
            Some(&self.tokens[self.pos])
        } else {
            None
        }
    }
}

fn copy_attrs(a: &Vec<(String, String)>) -> (r: Vec<(String, String)>)
    ensures
        attrs_view(r@) == attrs_view(a@),
{
    let mut r: Vec<(String, String)> = Vec::new();
    let mut i: usize = 0;
    while i < a.len()
        invariant
            i <= a.len(),
            attrs_view(r@) == attrs_view(a@.subrange(0, i as int)),
        decreases a.len() - i,
    {
        let k = copy_string(&a[i].0);
        let v = copy_string(&a[i].1);
        let ghost before = r@;
        let ghost kv = (k@, v@);
        r.push((k, v));
        proof {
            assert(kv == (a@[i as int].0@, a@[i as int].1@));
            assert(a@.subrange(0, i + 1) =~= a@.subrange(0, i as int).push(a@[i as int]));
            assert(attrs_view(r@) =~= attrs_view(before).push(kv));
            assert(attrs_view(a@.subrange(0, i + 1)) =~= attrs_view(a@.subrange(0, i as int)).push(
                kv,
            ));
        }
        i = i + 1;
    }
    assert(a@.subrange(0, a.len() as int) =~= a@);
    r
}

proof fn lemma_next_of_absent(s: Seq<char>, c: char, i: int)
    requires
        0 <= i <= s.len(),
        !s.contains(c),
    ensures
        next_of(s, c, i) == s.len(),
    decreases s.len() - i,
{
    if i < s.len() {
        assert(s[i] != c);
        lemma_next_of_absent(s, c, i + 1);
    }
}

/// Text with no tag in it is a document holding that text, its whitespace
/// collapsed, as one text node; blank text is an empty document.
pub proof fn law_plain_text_is_one_text_node(s: Seq<char>)
    requires
        !s.contains('<'),
    ensures
        document_of(s).kind == Kind::Document,
        document_of(s).children == if all_ws(s) {
            Seq::<Tree>::empty()
        } else {
            seq![Tree { kind: Kind::Text(collapse_ws(s)), children: Seq::empty() }]
        },
{
    lemma_next_of_absent(s, '<', 0);
    assert(s.subrange(0, s.len() as int) =~= s);
    let toks = tokenize_spec(s);
    assert(toks == text_tokens(s));
    if !all_ws(s) {
        assert(nodes_from(toks, 1, None) == (Seq::<Tree>::empty(), 1int));
        assert(nodes_from(toks, 0, None).0 =~= seq![Tree { kind: Kind::Text(collapse_ws(s)), children: Seq::empty() }]);
    }
}

/// A name as the parser gives it: not empty, no whitespace, lower case.
pub open spec fn clean_name(n: Seq<char>) -> bool {
    &&& n.len() > 0
    &&& forall|k: int| 0 <= k < n.len() ==> !is_ws(#[trigger] n[k])
    &&& lower_seq(n) == n
}

/// Text as the parser gives it: not empty, whitespace collapsed.
pub open spec fn clean_text(t: Seq<char>) -> bool {
    t.len() > 0 && collapse_ws(t) == t
}

pub open spec fn clean_attrs(a: Attrs) -> bool {
    forall|k: int| 0 <= k < a.len() ==> clean_name(#[trigger] a[k].0)
}

/// One node as the parser builds it: a text node with clean text and no
/// children, or an element with a clean name and clean attribute names,
/// childless when it is a void element.
pub open spec fn clean_node(t: Tree) -> bool {
    match t.kind {
        Kind::Document => false,
        Kind::Text(x) => clean_text(x) && t.children.len() == 0,
        Kind::Element { tag, attrs } => clean_name(tag) && clean_attrs(attrs) && (is_void(tag) ==> t.children.len()
            == 0),
    }
}

/// `t` is a clean node and so are all nodes below its first `n` children.
pub open spec fn clean_n(t: Tree, n: int) -> bool
    decreases t, n,
{
    if n <= 0 || n > t.children.len() {
        clean_node(t)
    } else {
        clean_n(t, n - 1) && clean_n(t.children[n - 1], t.children[n - 1].children.len() as int)
    }
}

/// Every node of `t` is clean.
pub open spec fn clean_tree(t: Tree) -> bool {
    clean_n(t, t.children.len() as int)
}

proof fn lemma_clean_n(t: Tree, n: int)
    requires
        0 <= n <= t.children.len(),
        clean_node(t),
        forall|k: int| 0 <= k < t.children.len() ==> clean_tree(#[trigger] t.children[k]),
    ensures
        clean_n(t, n),
    decreases n,
{
    if n > 0 {
        lemma_clean_n(t, n - 1);
        assert(clean_tree(t.children[n - 1]));
    }
}

proof fn lemma_clean_tree_intro(t: Tree)
    requires
        clean_node(t),
        forall|k: int| 0 <= k < t.children.len() ==> clean_tree(#[trigger] t.children[k]),
    ensures
        clean_tree(t),
{
    lemma_clean_n(t, t.children.len() as int);
}

pub open spec fn clean_token(t: TokenModel) -> bool {
    match t {
        TokenModel::Open { name, attrs } => clean_name(name) && clean_attrs(attrs),
        TokenModel::Close(_) => true,
        TokenModel::Text(x) => clean_text(x),
    }
}

/// The token at `i`, when it opens a void element, is followed by the
/// element's closing token.
pub open spec fn void_closed(ts: Seq<TokenModel>, i: int) -> bool {
    match ts[i] {
        TokenModel::Open { name, .. } => is_void(name) ==> i + 1 < ts.len() && ts[i + 1] == TokenModel::Close(name),
        _ => true,
    }
}

/// Every token is clean and every opening token of a void element is
/// followed by its closing token.
pub open spec fn clean_tokens(ts: Seq<TokenModel>) -> bool {
    forall|i: int| 0 <= i < ts.len() ==> #[trigger] clean_token(ts[i]) && void_closed(ts, i)
}

proof fn lemma_clean_concat(a: Seq<TokenModel>, b: Seq<TokenModel>)
    requires
        clean_tokens(a),
        clean_tokens(b),
    ensures
        clean_tokens(a + b),
{
    let c = a + b;
    assert forall|i: int| 0 <= i < c.len() implies #[trigger] clean_token(c[i]) && void_closed(c, i) by {
        if i < a.len() {
            assert(c[i] == a[i]);
            assert(clean_token(a[i]) && void_closed(a, i));
            if i + 1 < a.len() {
                assert(c[i + 1] == a[i + 1]);
            }
        } else {
            let j = i - a.len();
            assert(c[i] == b[j]);
            assert(clean_token(b[j]) && void_closed(b, j));
            if j + 1 < b.len() {
                assert(c[i + 1] == b[j + 1]);
            }
        }
    }
}

proof fn lemma_skip_ws_ge(s: Seq<char>, i: int)
    ensures
        skip_ws(s, i) >= i,
        0 <= i <= s.len() ==> skip_ws(s, i) <= s.len(),
    decreases s.len() - i,
{
    if 0 <= i < s.len() && is_ws(s[i]) {
        lemma_skip_ws_ge(s, i + 1);
    }
}

proof fn lemma_next_ws_span(s: Seq<char>, i: int)
    requires
        0 <= i <= s.len(),
    ensures
        i <= next_ws(s, i) <= s.len(),
        forall|k: int| i <= k < next_ws(s, i) ==> !is_ws(#[trigger] s[k]),
    decreases s.len() - i,
{
    if i < s.len() && !is_ws(s[i]) {
        lemma_next_ws_span(s, i + 1);
    }
}

proof fn lemma_key_end_span(s: Seq<char>, i: int)
    requires
        0 <= i <= s.len(),
    ensures
        i <= key_end(s, i) <= s.len(),
        forall|k: int| i <= k < key_end(s, i) ==> !is_ws(#[trigger] s[k]),
    decreases s.len() - i,
{
    if i < s.len() && !is_ws(s[i]) && s[i] != '=' {
        lemma_key_end_span(s, i + 1);
    }
}

/// A non-empty run without whitespace, lower-cased, is a clean name.
proof fn lemma_lower_clean(w: Seq<char>)
    requires
        w.len() > 0,
        forall|k: int| 0 <= k < w.len() ==> !is_ws(#[trigger] w[k]),
    ensures
        clean_name(lower_seq(w)),
{
    let l = lower_seq(w);
    assert forall|k: int| 0 <= k < l.len() implies !is_ws(#[trigger] l[k]) && lower(l[k]) == l[k] by {
        crate::text::lemma_lower_ws(w[k]);
    }
    assert(lower_seq(l) =~= l);
}

proof fn lemma_attrs_clean(s: Seq<char>, i: int)
    ensures
        clean_attrs(attrs_from(s, i)),
    decreases s.len() - i,
{
    let p = skip_ws(s, i);
    lemma_skip_ws_ge(s, i);
    if i < 0 || p >= s.len() {
    } else {
        lemma_key_end_span(s, p);
        let ke = key_end(s, p);
        let key = s.subrange(p, ke);
        let q = skip_ws(s, ke);
        let (value, after) = if q < s.len() && s[q] == '=' {
            attr_value(s, skip_ws(s, q + 1))
        } else {
            (Seq::empty(), q)
        };
        let head = if key.len() > 0 {
            seq![(lower_seq(key), value)]
        } else {
            Seq::<(Seq<char>, Seq<char>)>::empty()
        };
        if key.len() > 0 {
            assert forall|k: int| 0 <= k < key.len() implies !is_ws(#[trigger] key[k]) by {
                assert(key[k] == s[p + k]);
            }
            lemma_lower_clean(key);
        }
        if i < after <= s.len() {
            lemma_attrs_clean(s, after);
            let rest = attrs_from(s, after);
            assert(attrs_from(s, i) == head + rest);
            assert forall|k: int| 0 <= k < (head + rest).len() implies clean_name(#[trigger] (head + rest)[k].0) by {
                if k >= head.len() {
                    assert((head + rest)[k] == rest[k - head.len()]);
                }
            }
        }
    }
}

/// Text that is not blank collapses to clean text.
proof fn lemma_text_clean(t: Seq<char>)
    requires
        !all_ws(t),
    ensures
        clean_text(collapse_ws(t)),
{
    lemma_collapse_nonempty(t);
    crate::text::lemma_collapse_tidy(t);
    crate::text::lemma_collapse_tidy_fixed(collapse_ws(t));
}

proof fn lemma_collapse_nonempty(s: Seq<char>)
    requires
        !all_ws(s),
    ensures
        collapse_state(s).0.len() > 0,
    decreases s.len(),
{
    let c = s.last();
    if is_ws(c) {
        let t = s.drop_last();
        assert(!all_ws(t)) by {
            let k = choose|k: int| 0 <= k < s.len() && !is_ws(#[trigger] s[k]);
            assert(k < t.len());
            assert(t[k] == s[k]);
        }
        lemma_collapse_nonempty(t);
    }
}

proof fn lemma_tag_clean(raw: Seq<char>)
    ensures
        clean_tokens(tag_tokens(raw)),
{
    let tag = trim(raw);
    if tag.len() == 0 || tag[0] == '!' {
    } else if tag[0] == '/' {
    } else {
        let x = rstrip_slash(tag);
        let (name, attrs) = open_tag(x);
        let ne = next_ws(x, 0);
        lemma_next_ws_span(x, 0);
        lemma_attrs_clean(x, ne);
        if name.len() > 0 {
            let w = x.subrange(0, ne);
            assert forall|k: int| 0 <= k < w.len() implies !is_ws(#[trigger] w[k]) by {
                assert(w[k] == x[k]);
            }
            lemma_lower_clean(w);
        }
    }
}

proof fn lemma_tokens_clean(s: Seq<char>, i: int)
    ensures
        clean_tokens(tokens_from(s, i)),
    decreases s.len() - i,
{
    if i < 0 || i > s.len() {
    } else {
        let j = next_of(s, '<', i);
        let t = s.subrange(i, j);
        let text = text_tokens(t);
        if !all_ws(t) {
            lemma_text_clean(t);
        }
        if j >= s.len() {
        } else {
            let k = next_of(s, '>', j + 1);
            let tag = tag_tokens(s.subrange(j + 1, k));
            lemma_tag_clean(s.subrange(j + 1, k));
            lemma_clean_concat(text, tag);
            if i < k + 1 <= s.len() {
                lemma_tokens_clean(s, k + 1);
                lemma_clean_concat(text + tag, tokens_from(s, k + 1));
            }
        }
    }
}

proof fn lemma_nodes_clean(toks: Seq<TokenModel>, pos: int, until: Option<Seq<char>>)
    requires
        clean_tokens(toks),
    ensures
        forall|k: int|
            0 <= k < nodes_from(toks, pos, until).0.len() ==> clean_tree(#[trigger] nodes_from(toks, pos, until).0[k]),
    decreases toks.len() - pos,
{
    if pos < 0 || pos >= toks.len() {
    } else {
        assert(clean_token(toks[pos]) && void_closed(toks, pos));
        match toks[pos] {
            TokenModel::Close(n) => {},
            TokenModel::Text(t) => {
                lemma_nodes_clean(toks, pos + 1, until);
                let (rest, p) = nodes_from(toks, pos + 1, until);
                let node = Tree { kind: Kind::Text(t), children: Seq::empty() };
                lemma_clean_tree_intro(node);
                let all = seq![node] + rest;
                assert forall|k: int| 0 <= k < all.len() implies clean_tree(#[trigger] all[k]) by {
                    if k > 0 {
                        assert(all[k] == rest[k - 1]);
                    }
                }
            },
            TokenModel::Open { name, attrs } => {
                lemma_nodes_clean(toks, pos + 1, Some(name));
                let (kids, p1) = nodes_from(toks, pos + 1, Some(name));
                if is_void(name) {
                    assert(toks[pos + 1] == TokenModel::Close(name));
                    assert(kids.len() == 0);
                }
                if pos < p1 <= toks.len() {
                    lemma_nodes_clean(toks, p1, until);
                    let (rest, p2) = nodes_from(toks, p1, until);
                    let node = Tree { kind: Kind::Element { tag: name, attrs }, children: kids };
                    lemma_clean_tree_intro(node);
                    let all = seq![node] + rest;
                    assert forall|k: int| 0 <= k < all.len() implies clean_tree(#[trigger] all[k]) by {
                        if k > 0 {
                            assert(all[k] == rest[k - 1]);
                        }
                    }
                }
            },
        }
    }
}

/// Whatever the input, the parser gives a document whose every other node
/// is a text node or an element: text nodes have no children and hold
/// non-empty text with its whitespace collapsed; element names and
/// attribute names are non-empty, free of whitespace and lower case; and
/// void elements (`br`, `hr`, `img`, `meta`, `link`, `input`) have no
/// children.
pub proof fn law_parse_gives_clean_tree(s: Seq<char>)
    ensures
        document_of(s).kind == Kind::Document,
        forall|k: int| 0 <= k < document_of(s).children.len() ==> clean_tree(#[trigger] document_of(s).children[k]),
{
    lemma_tokens_clean(s, 0);
    lemma_nodes_clean(tokenize_spec(s), 0, None);
}

} // verus!
