//! Parser for a small subset of CSS: rules of `tag`, `.class` and `#id`
//! selectors with `name: value` declarations.
use vstd::prelude::*;
use crate::text::{chars_of, find_from, lower, is_whitespace, is_ws, lower_seq, lowered, split, split_once, string_of, trim, trim_range};
use crate::split::{find_in, split_ranges};

verus! {

#[derive(Debug, Clone, PartialEq, Eq)]
pub struct Stylesheet {
    pub rules: Vec<Rule>,
}

#[derive(Debug, Clone, PartialEq, Eq)]
pub struct Rule {
    pub selectors: Vec<Selector>,
    pub declarations: Vec<Declaration>,
}

#[derive(Debug, Clone, PartialEq, Eq)]
pub struct Selector {
    pub tag_name: Option<String>,
    pub id: Option<String>,
    pub classes: Vec<String>,
}

#[derive(Debug, Clone, PartialEq, Eq)]
pub struct Declaration {
    pub name: String,
    pub value: String,
}

/// The model of a selector.
pub struct SelectorModel {
    pub tag: Option<Seq<char>>,
    pub id: Option<Seq<char>>,
    pub classes: Seq<Seq<char>>,
}

/// The model of a declaration.
pub struct DeclModel {
    pub name: Seq<char>,
    pub value: Seq<char>,
}

/// The model of a rule.
pub struct RuleModel {
    pub selectors: Seq<SelectorModel>,
    pub decls: Seq<DeclModel>,
}

pub open spec fn opt_view(o: Option<String>) -> Option<Seq<char>> {
    match o {
        Some(s) => Some(s@),
        None => None,
    }
}

pub open spec fn strings_view(v: Seq<String>) -> Seq<Seq<char>> {
    v.map_values(|s: String| s@)
}

impl View for Selector {
    type V = SelectorModel;

    open spec fn view(&self) -> SelectorModel {
        SelectorModel {
            tag: opt_view(self.tag_name),
            id: opt_view(self.id),
            classes: strings_view(self.classes@),
        }
    }
}

impl View for Declaration {
    type V = DeclModel;

    open spec fn view(&self) -> DeclModel {
        DeclModel { name: self.name@, value: self.value@ }
    }
}

impl View for Rule {
    type V = RuleModel;

    open spec fn view(&self) -> RuleModel {
        RuleModel {
            selectors: self.selectors@.map_values(|s: Selector| s@),
            decls: self.declarations@.map_values(|d: Declaration| d@),
        }
    }
}

impl View for Stylesheet {
    type V = Seq<RuleModel>;

    open spec fn view(&self) -> Seq<RuleModel> {
        self.rules@.map_values(|r: Rule| r@)
    }
}

/// What part of a compound selector the characters being read belong to.
#[derive(Clone, Copy, PartialEq, Eq, Structural)]
pub enum SelectorMode {
    Tag,
    Id,
    Class,
    Done,
}

/// The state of the selector reader.
pub struct SelState {
    pub mode: SelectorMode,
    pub buf: Seq<char>,
    pub tag: Option<Seq<char>>,
    pub id: Option<Seq<char>>,
    pub classes: Seq<Seq<char>>,
}

/// The buffered name, lower-cased, stored where the mode says; the buffer
/// is emptied.
pub open spec fn sel_flush(st: SelState) -> SelState {
    if st.buf.len() == 0 {
        st
    } else {
        let value = lower_seq(st.buf);
        let st2 = SelState { buf: Seq::empty(), ..st };
        match st.mode {
            SelectorMode::Tag => SelState { tag: Some(value), ..st2 },
            SelectorMode::Id => SelState { id: Some(value), ..st2 },
            SelectorMode::Class => SelState { classes: st.classes.push(value), ..st2 },
            SelectorMode::Done => st2,
        }
    }
}

/// One character of a selector: `#` starts an id, `.` a class, whitespace
/// ends the selector (what follows is ignored), other characters extend the
/// current name.
pub open spec fn sel_step(st: SelState, c: char) -> SelState {
    if c == '#' {
        SelState { mode: SelectorMode::Id, ..sel_flush(st) }
    } else if c == '.' {
        SelState { mode: SelectorMode::Class, ..sel_flush(st) }
    } else if is_ws(c) {
        SelState { mode: SelectorMode::Done, ..sel_flush(st) }
    } else if st.mode != SelectorMode::Done {
        SelState { buf: st.buf.push(c), ..st }
    } else {
        st
    }
}

pub open spec fn sel_init() -> SelState {
    SelState {
        mode: SelectorMode::Tag,
        buf: Seq::empty(),
        tag: None,
        id: None,
        classes: Seq::empty(),
    }
}

pub open spec fn sel_run(s: Seq<char>) -> SelState
    decreases s.len(),
{
    if s.len() == 0 {
        sel_init()
    } else {
        sel_step(sel_run(s.drop_last()), s.last())
    }
}

/// The selector that a text denotes: its trimmed characters read in turn,
/// followed by one space.
pub open spec fn selector_of(s: Seq<char>) -> SelectorModel {
    let st = sel_run(trim(s).push(' '));
    SelectorModel { tag: st.tag, id: st.id, classes: st.classes }
}

pub open spec fn selector_nonempty(s: SelectorModel) -> bool {
    s.tag is Some || s.id is Some || s.classes.len() > 0
}

/// The selectors of a comma-separated list, without the empty ones.
pub open spec fn selectors_of(pieces: Seq<Seq<char>>) -> Seq<SelectorModel>
    decreases pieces.len(),
{
    if pieces.len() == 0 {
        Seq::empty()
    } else {
        let prev = selectors_of(pieces.drop_last());
        let s = selector_of(pieces.last());
        if selector_nonempty(s) {
            prev.push(s)
        } else {
            prev
        }
    }
}

/// One `name: value` entry: the name trimmed and lower-cased, the value
/// trimmed; entries without a colon, a name or a value are dropped.
pub open spec fn decl_of(entry: Seq<char>) -> Option<DeclModel> {
    match split_once(entry, ':') {
        Some((n, v)) => {
            let name = lower_seq(trim(n));
            let value = trim(v);
            if name.len() == 0 || value.len() == 0 {
                None
            } else {
                Some(DeclModel { name, value })
            }
        },
        None => None,
    }
}

pub open spec fn decls_of(pieces: Seq<Seq<char>>) -> Seq<DeclModel>
    decreases pieces.len(),
{
    if pieces.len() == 0 {
        Seq::empty()
    } else {
        let prev = decls_of(pieces.drop_last());
        match decl_of(pieces.last()) {
            Some(d) => prev.push(d),
            None => prev,
        }
    }
}

/// The rule of one `selectors { declarations` block, if it has both.
pub open spec fn rule_of(block: Seq<char>) -> Option<RuleModel> {
    match split_once(block, '{') {
        Some((sels, decls)) => {
            let selectors = selectors_of(split(sels, ','));
            let declarations = decls_of(split(decls, ';'));
            if selectors.len() > 0 && declarations.len() > 0 {
                Some(RuleModel { selectors, decls: declarations })
            } else {
                None
            }
        },
        None => None,
    }
}

pub open spec fn rules_of(blocks: Seq<Seq<char>>) -> Seq<RuleModel>
    decreases blocks.len(),
{
    if blocks.len() == 0 {
        Seq::empty()
    } else {
        let prev = rules_of(blocks.drop_last());
        match rule_of(blocks.last()) {
            Some(r) => prev.push(r),
            None => prev,
        }
    }
}

/// The stylesheet a CSS text denotes: its `}`-terminated blocks, in order.
pub open spec fn stylesheet_of(input: Seq<char>) -> Seq<RuleModel> {
    rules_of(split(input, '}'))
}

/// The pieces that `split` cuts a text into hold only the text's
/// characters.
proof fn lemma_split_pieces_from(s: Seq<char>, sep: char, c: char)
    requires
        !s.contains(c),
    ensures
        forall|k: int| 0 <= k < split(s, sep).len() ==> !(#[trigger] split(s, sep)[k]).contains(c),
        split(s, sep).len() >= 1,
    decreases s.len(),
{
    if s.len() > 0 {
        let d = s.drop_last();
        assert forall|j: int| 0 <= j < d.len() implies d[j] != c by {
            assert(d[j] == s[j]);
        }
        lemma_split_pieces_from(d, sep, c);
        let prev = split(d, sep);
        assert(s.last() != c) by {
            assert(s[s.len() - 1] == s.last());
        }
        if s.last() != sep {
            let last = prev.last().push(s.last());
            assert(!prev[prev.len() - 1].contains(c));
            assert forall|j: int| 0 <= j < last.len() implies last[j] != c by {
                if j < prev.last().len() {
                    assert(last[j] == prev.last()[j]);
                }
            }
        }
    }
}

proof fn lemma_no_rules(blocks: Seq<Seq<char>>)
    requires
        forall|k: int| 0 <= k < blocks.len() ==> !(#[trigger] blocks[k]).contains('{'),
    ensures
        rules_of(blocks).len() == 0,
    decreases blocks.len(),
{
    if blocks.len() > 0 {
        lemma_no_rules(blocks.drop_last());
        let b = blocks.last();
        assert(!blocks[blocks.len() - 1].contains('{'));
        if find_from(b, '{', 0) is Some {
            lemma_find_from_found(b, '{', 0);
        }
    }
}

proof fn lemma_find_from_found(s: Seq<char>, c: char, from: int)
    requires
        find_from(s, c, from) is Some,
    ensures
        s.contains(c),
    decreases s.len() - from,
{
    if from >= 0 && from < s.len() && s[from] != c {
        lemma_find_from_found(s, c, from + 1);
    }
}

/// Text without a `{` holds no rules.
pub proof fn law_no_brace_no_rules(input: Seq<char>)
    requires
        !input.contains('{'),
    ensures
        stylesheet_of(input).len() == 0,
{
    lemma_split_pieces_from(input, '}', '{');
    lemma_no_rules(split(input, '}'));
}

/// Parses a stylesheet. Malformed blocks and entries are skipped.
pub fn parse(input: &str) -> (r: Stylesheet)
    ensures
        r@ == stylesheet_of(input@),
{
    let v = chars_of(input);
    let blocks = split_ranges(&v, 0, v.len(), '}');
    let ghost pieces = split(v@.subrange(0, v.len() as int), '}');
    assert(v@.subrange(0, v.len() as int) =~= input@);
    let mut rules: Vec<Rule> = Vec::new();
    let mut k: usize = 0;
    while k < blocks.len()
        invariant
            0 <= k <= blocks@.len() == pieces.len(),
            pieces == split(input@, '}'),
            forall|j: int|
                0 <= j < blocks@.len() ==> {
                    &&& (#[trigger] blocks@[j]).0 <= blocks@[j].1 <= v@.len()
                    &&& v@.subrange(blocks@[j].0 as int, blocks@[j].1 as int) == pieces[j]
                },
            rules@.map_values(|r: Rule| r@) == rules_of(pieces.subrange(0, k as int)),
        decreases blocks@.len() - k,
    {
        let (a, b) = blocks[k];
        let rule = parse_block(&v, a, b);
        proof {
            assert(pieces.subrange(0, k + 1).drop_last() =~= pieces.subrange(0, k as int));
        }
        match rule {
            Some(rule) => {
                rules.push(rule);
                proof {
                    assert(rules@.map_values(|r: Rule| r@) =~= rules_of(pieces.subrange(0, k + 1)));
                }
            },
            None => {},
        }
        k = k + 1;
    }
    assert(pieces.subrange(0, pieces.len() as int) =~= pieces);
    Stylesheet { rules }
}

fn parse_block(v: &Vec<char>, a: usize, b: usize) -> (r: Option<Rule>)
    requires
        a <= b <= v.len(),
    ensures
        match r {
            Some(rule) => rule_of(v@.subrange(a as int, b as int)) == Some(rule@),
            None => rule_of(v@.subrange(a as int, b as int)) is None,
        },
{
    let ghost block = v@.subrange(a as int, b as int);
    match find_in(v, a, b, '{') {
        None => None,
        Some(open) => {
            proof {
                assert(block.subrange(0, open - a) =~= v@.subrange(a as int, open as int));
                assert(block.subrange(open - a + 1, block.len() as int) =~= v@.subrange(
                    open + 1,
                    b as int,
                ));
            }
            let selectors = parse_selector_list(v, a, open);
            let declarations = parse_declarations(v, open + 1, b);
            if selectors.len() > 0 && declarations.len() > 0 {
                Some(Rule { selectors, declarations })
            } else {
                None
            }
        },
    }
}

fn parse_selector_list(v: &Vec<char>, a: usize, b: usize) -> (r: Vec<Selector>)
    requires
        a <= b <= v.len(),
    ensures
        r@.map_values(|s: Selector| s@) == selectors_of(split(v@.subrange(a as int, b as int), ',')),
{
    let ranges = split_ranges(v, a, b, ',');
    let ghost pieces = split(v@.subrange(a as int, b as int), ',');
    let mut out: Vec<Selector> = Vec::new();
    let mut k: usize = 0;
    while k < ranges.len()
        invariant
            0 <= k <= ranges@.len() == pieces.len(),
            pieces == split(v@.subrange(a as int, b as int), ','),
            forall|j: int|
                0 <= j < ranges@.len() ==> {
                    &&& (#[trigger] ranges@[j]).0 <= ranges@[j].1 <= v@.len()
                    &&& v@.subrange(ranges@[j].0 as int, ranges@[j].1 as int) == pieces[j]
                },
            out@.map_values(|s: Selector| s@) == selectors_of(pieces.subrange(0, k as int)),
        decreases ranges@.len() - k,
    {
        let (s, e) = ranges[k];
        let sel = parse_selector(v, s, e);
        proof {
            assert(pieces.subrange(0, k + 1).drop_last() =~= pieces.subrange(0, k as int));
        }
        if sel.tag_name.is_some() || sel.id.is_some() || sel.classes.len() > 0 {
            out.push(sel);
            proof {
                assert(out@.map_values(|s: Selector| s@) =~= selectors_of(pieces.subrange(0, k + 1)));
            }
        }
        k = k + 1;
    }
    assert(pieces.subrange(0, pieces.len() as int) =~= pieces);
    out
}

fn parse_declarations(v: &Vec<char>, a: usize, b: usize) -> (r: Vec<Declaration>)
    requires
        a <= b <= v.len(),
    ensures
        r@.map_values(|d: Declaration| d@) == decls_of(split(v@.subrange(a as int, b as int), ';')),
{
    let ranges = split_ranges(v, a, b, ';');
    let ghost pieces = split(v@.subrange(a as int, b as int), ';');
    let mut out: Vec<Declaration> = Vec::new();
    let mut k: usize = 0;
    while k < ranges.len()
        invariant
            0 <= k <= ranges@.len() == pieces.len(),
            pieces == split(v@.subrange(a as int, b as int), ';'),
            forall|j: int|
                0 <= j < ranges@.len() ==> {
                    &&& (#[trigger] ranges@[j]).0 <= ranges@[j].1 <= v@.len()
                    &&& v@.subrange(ranges@[j].0 as int, ranges@[j].1 as int) == pieces[j]
                },
            out@.map_values(|d: Declaration| d@) == decls_of(pieces.subrange(0, k as int)),
        decreases ranges@.len() - k,
    {
        let (s, e) = ranges[k];
        let d = parse_declaration(v, s, e);
        proof {
            assert(pieces.subrange(0, k + 1).drop_last() =~= pieces.subrange(0, k as int));
        }
        match d {
            Some(d) => {
                out.push(d);
                proof {
                    assert(out@.map_values(|d: Declaration| d@) =~= decls_of(
                        pieces.subrange(0, k + 1),
                    ));
                }
            },
            None => {},
        }
        k = k + 1;
    }
    assert(pieces.subrange(0, pieces.len() as int) =~= pieces);
    out
}

fn parse_declaration(v: &Vec<char>, a: usize, b: usize) -> (r: Option<Declaration>)
    requires
        a <= b <= v.len(),
    ensures
        match r {
            Some(d) => decl_of(v@.subrange(a as int, b as int)) == Some(d@),
            None => decl_of(v@.subrange(a as int, b as int)) is None,
        },
{
    let ghost entry = v@.subrange(a as int, b as int);
    match find_in(v, a, b, ':') {
        None => None,
        Some(colon) => {
            proof {
                assert(entry.subrange(0, colon - a) =~= v@.subrange(a as int, colon as int));
                assert(entry.subrange(colon - a + 1, entry.len() as int) =~= v@.subrange(
                    colon + 1,
                    b as int,
                ));
            }
            let (ns, ne) = trim_range(v, a, colon);
            let (vs, ve) = trim_range(v, colon + 1, b);
            let raw_name = string_of(v, ns, ne);
            let name = lowered(raw_name.as_str());
            let value = string_of(v, vs, ve);
            if ne == ns || ve == vs {
                proof {
                    if ne == ns {
                        assert(lower_seq(v@.subrange(ns as int, ne as int)).len() == 0);
                    }
                }
                None
            } else {
                Some(Declaration { name, value })
            }
        },
    }
}

/// Reads one compound selector such as `p`, `.hero` or `div#main.card`.
fn parse_selector(v: &Vec<char>, a: usize, b: usize) -> (r: Selector)
    requires
        a <= b <= v.len(),
    ensures
        r@ == selector_of(v@.subrange(a as int, b as int)),
{
    let (s, e) = trim_range(v, a, b);
    let ghost input = trim(v@.subrange(a as int, b as int)).push(' ');
    let mut tag_name: Option<String> = None;
    let mut id: Option<String> = None;
    let mut classes: Vec<String> = Vec::new();
    let mut buffer: Vec<char> = Vec::new();
    let mut mode = SelectorMode::Tag;
    proof {
        assert(input.subrange(0, 0) =~= Seq::<char>::empty());
        assert(strings_view(classes@) =~= Seq::<Seq<char>>::empty());
        assert(buffer@ =~= Seq::<char>::empty());
    }
    let mut i = s;
    while i < e
        invariant
            a <= s <= e <= b <= v.len(),
            s <= i <= e,
            input == v@.subrange(s as int, e as int).push(' '),
            (SelState {
                mode,
                buf: buffer@,
                tag: opt_view(tag_name),
                id: opt_view(id),
                classes: strings_view(classes@),
            }) == sel_run(input.subrange(0, i - s)),
        decreases e - i,
    {
        let ch = v[i];
        proof {
            assert(input.subrange(0, i - s + 1).drop_last() =~= input.subrange(0, i - s));
            assert(input[i - s] == ch);
        }
        sel_feed(ch, &mut mode, &mut buffer, &mut tag_name, &mut id, &mut classes);
        i = i + 1;
    }
    proof {
        assert(input.subrange(0, e - s + 1).drop_last() =~= input.subrange(0, e - s));
        assert(input.subrange(0, e - s + 1) =~= input);
    }
    sel_feed(' ', &mut mode, &mut buffer, &mut tag_name, &mut id, &mut classes);
    Selector { tag_name, id, classes }
}

fn sel_feed(
    ch: char,
    mode: &mut SelectorMode,
    buffer: &mut Vec<char>,
    tag_name: &mut Option<String>,
    id: &mut Option<String>,
    classes: &mut Vec<String>,
)
    ensures
        (SelState {
            mode: *final(mode),
            buf: final(buffer)@,
            tag: opt_view(*final(tag_name)),
            id: opt_view(*final(id)),
            classes: strings_view(final(classes)@),
        }) == sel_step(
            SelState {
                mode: *old(mode),
                buf: old(buffer)@,
                tag: opt_view(*old(tag_name)),
                id: opt_view(*old(id)),
                classes: strings_view(old(classes)@),
            },
            ch,
        ),
{
    if ch == '#' {
        flush_selector_part(mode, buffer, tag_name, id, classes);
        *mode = SelectorMode::Id;
    } else if ch == '.' {
        flush_selector_part(mode, buffer, tag_name, id, classes);
        *mode = SelectorMode::Class;
    } else if is_whitespace(ch) {
        flush_selector_part(mode, buffer, tag_name, id, classes);
        *mode = SelectorMode::Done;
    } else if *mode != SelectorMode::Done {
        buffer.push(ch);
    }
}

fn flush_selector_part(
    mode: &mut SelectorMode,
    buffer: &mut Vec<char>,
    tag_name: &mut Option<String>,
    id: &mut Option<String>,
    classes: &mut Vec<String>,
)
    ensures
        (SelState {
            mode: *final(mode),
            buf: final(buffer)@,
            tag: opt_view(*final(tag_name)),
            id: opt_view(*final(id)),
            classes: strings_view(final(classes)@),
        }) == sel_flush(
            SelState {
                mode: *old(mode),
                buf: old(buffer)@,
                tag: opt_view(*old(tag_name)),
                id: opt_view(*old(id)),
                classes: strings_view(old(classes)@),
            },
        ),
{
    if buffer.len() == 0 {
        return;
    }
    let raw = string_of(buffer, 0, buffer.len());
    assert(buffer@.subrange(0, buffer@.len() as int) =~= buffer@);
    let value = lowered(raw.as_str());
    *buffer = Vec::new();
    match *mode {
        SelectorMode::Tag => *tag_name = Some(value),
        SelectorMode::Id => *id = Some(value),
        SelectorMode::Class => {
            classes.push(value);
            assert(strings_view(classes@) =~= strings_view(old(classes)@).push(value@));
        },
        SelectorMode::Done => {},
    }
}

/// A character that can be part of a selector's name.
pub open spec fn sel_char(c: char) -> bool {
    !is_ws(c) && c != '.' && c != '#'
}

/// A selector name as the parser gives it: not empty, lower case, without
/// whitespace, `.` or `#`.
pub open spec fn clean_sel_name(n: Seq<char>) -> bool {
    &&& n.len() > 0
    &&& forall|k: int| 0 <= k < n.len() ==> sel_char(#[trigger] n[k])
    &&& lower_seq(n) == n
}

pub open spec fn clean_selector(s: SelectorModel) -> bool {
    &&& selector_nonempty(s)
    &&& (s.tag matches Some(t) ==> clean_sel_name(t))
    &&& (s.id matches Some(t) ==> clean_sel_name(t))
    &&& forall|k: int| 0 <= k < s.classes.len() ==> clean_sel_name(#[trigger] s.classes[k])
}

/// A declaration as the parser gives it: a non-empty, trimmed, lower-case
/// name without `:`, and a non-empty, trimmed value.
pub open spec fn clean_decl(d: DeclModel) -> bool {
    &&& d.name.len() > 0
    &&& trim(d.name) == d.name
    &&& lower_seq(d.name) == d.name
    &&& !d.name.contains(':')
    &&& d.value.len() > 0
    &&& trim(d.value) == d.value
}

/// A rule as the parser gives it: at least one selector and one
/// declaration, all of them clean.
pub open spec fn clean_rule(r: RuleModel) -> bool {
    &&& r.selectors.len() > 0
    &&& r.decls.len() > 0
    &&& forall|k: int| 0 <= k < r.selectors.len() ==> clean_selector(#[trigger] r.selectors[k])
    &&& forall|k: int| 0 <= k < r.decls.len() ==> clean_decl(#[trigger] r.decls[k])
}

pub open spec fn sel_state_clean(st: SelState) -> bool {
    &&& forall|k: int| 0 <= k < st.buf.len() ==> sel_char(#[trigger] st.buf[k])
    &&& (st.tag matches Some(t) ==> clean_sel_name(t))
    &&& (st.id matches Some(t) ==> clean_sel_name(t))
    &&& forall|k: int| 0 <= k < st.classes.len() ==> clean_sel_name(#[trigger] st.classes[k])
}

proof fn lemma_lower_sel_name(b: Seq<char>)
    requires
        b.len() > 0,
        forall|k: int| 0 <= k < b.len() ==> sel_char(#[trigger] b[k]),
    ensures
        clean_sel_name(lower_seq(b)),
{
    let l = lower_seq(b);
    assert forall|k: int| 0 <= k < l.len() implies sel_char(#[trigger] l[k]) && lower(l[k]) == l[k] by {
        crate::text::lemma_lower_ws(b[k]);
    }
    assert(lower_seq(l) =~= l);
}

proof fn lemma_sel_flush_clean(st: SelState)
    requires
        sel_state_clean(st),
    ensures
        sel_state_clean(sel_flush(st)),
        sel_flush(st).buf.len() == 0,
{
    if st.buf.len() > 0 {
        lemma_lower_sel_name(st.buf);
        let v = lower_seq(st.buf);
        let c2 = st.classes.push(v);
        assert forall|k: int| 0 <= k < c2.len() implies clean_sel_name(#[trigger] c2[k]) by {
            if k < st.classes.len() {
                assert(c2[k] == st.classes[k]);
            }
        }
    }
}

proof fn lemma_sel_run_clean(s: Seq<char>)
    ensures
        sel_state_clean(sel_run(s)),
    decreases s.len(),
{
    if s.len() > 0 {
        lemma_sel_run_clean(s.drop_last());
        let st = sel_run(s.drop_last());
        let c = s.last();
        lemma_sel_flush_clean(st);
        if c != '#' && c != '.' && !is_ws(c) && st.mode != SelectorMode::Done {
            let b = st.buf.push(c);
            assert forall|k: int| 0 <= k < b.len() implies sel_char(#[trigger] b[k]) by {
                if k < st.buf.len() {
                    assert(b[k] == st.buf[k]);
                }
            }
        }
    }
}

proof fn lemma_selectors_clean(pieces: Seq<Seq<char>>)
    ensures
        forall|k: int| 0 <= k < selectors_of(pieces).len() ==> clean_selector(#[trigger] selectors_of(pieces)[k]),
    decreases pieces.len(),
{
    if pieces.len() > 0 {
        lemma_selectors_clean(pieces.drop_last());
        let prev = selectors_of(pieces.drop_last());
        let s = selector_of(pieces.last());
        lemma_sel_run_clean(trim(pieces.last()).push(' '));
        if selector_nonempty(s) {
            let all = prev.push(s);
            assert forall|k: int| 0 <= k < all.len() implies clean_selector(#[trigger] all[k]) by {
                if k < prev.len() {
                    assert(all[k] == prev[k]);
                }
            }
        }
    }
}

proof fn lemma_find_first(s: Seq<char>, c: char, from: int)
    requires
        0 <= from,
        find_from(s, c, from) is Some,
    ensures
        from <= find_from(s, c, from)->0 < s.len(),
        forall|k: int| from <= k < find_from(s, c, from)->0 ==> s[k] != c,
    decreases s.len() - from,
{
    if from < s.len() && s[from] != c {
        lemma_find_first(s, c, from + 1);
    }
}

/// A trimmed text with non-whitespace edges lower-cased is still trimmed.
proof fn lemma_trimmed(t: Seq<char>)
    requires
        t.len() > 0 ==> !is_ws(t[0]) && !is_ws(t.last()),
    ensures
        trim(lower_seq(t)) == lower_seq(t),
        lower_seq(lower_seq(t)) == lower_seq(t),
{
    let l = lower_seq(t);
    if t.len() > 0 {
        crate::text::lemma_lower_ws(t[0]);
        crate::text::lemma_lower_ws(t.last());
        assert(l.last() == lower(t.last()));
    }
    crate::text::lemma_trim_unchanged(l);
    assert forall|k: int| 0 <= k < l.len() implies #[trigger] lower_seq(l)[k] == l[k] by {
        crate::text::lemma_lower_ws(t[k]);
    }
    assert(lower_seq(l) =~= l);
}

proof fn lemma_decl_clean(entry: Seq<char>)
    ensures
        decl_of(entry) matches Some(d) ==> clean_decl(d),
{
    if let Some((n, v)) = split_once(entry, ':') {
        let i = find_from(entry, ':', 0)->0;
        lemma_find_first(entry, ':', 0);
        assert(!n.contains(':')) by {
            if n.contains(':') {
                let k = choose|k: int| 0 <= k < n.len() && n[k] == ':';
                assert(n[k] == entry[k]);
            }
        }
        let tn = trim(n);
        crate::text::lemma_trim_within(n, ':');
        crate::text::lemma_trim_edges(n);
        crate::text::lemma_trim_edges(v);
        lemma_trimmed(tn);
        let name = lower_seq(tn);
        assert(!name.contains(':')) by {
            if name.contains(':') {
                let k = choose|k: int| 0 <= k < name.len() && name[k] == ':';
                assert(name[k] == lower(tn[k]));
                assert(tn[k] == ':');
            }
        }
        crate::text::lemma_trim_unchanged(trim(v));
    }
}

proof fn lemma_decls_clean(pieces: Seq<Seq<char>>)
    ensures
        forall|k: int| 0 <= k < decls_of(pieces).len() ==> clean_decl(#[trigger] decls_of(pieces)[k]),
    decreases pieces.len(),
{
    if pieces.len() > 0 {
        lemma_decls_clean(pieces.drop_last());
        let prev = decls_of(pieces.drop_last());
        lemma_decl_clean(pieces.last());
        if let Some(d) = decl_of(pieces.last()) {
            let all = prev.push(d);
            assert forall|k: int| 0 <= k < all.len() implies clean_decl(#[trigger] all[k]) by {
                if k < prev.len() {
                    assert(all[k] == prev[k]);
                }
            }
        }
    }
}

proof fn lemma_rules_clean(blocks: Seq<Seq<char>>)
    ensures
        forall|k: int| 0 <= k < rules_of(blocks).len() ==> clean_rule(#[trigger] rules_of(blocks)[k]),
    decreases blocks.len(),
{
    if blocks.len() > 0 {
        lemma_rules_clean(blocks.drop_last());
        let prev = rules_of(blocks.drop_last());
        if let Some((sels, decls)) = split_once(blocks.last(), '{') {
            lemma_selectors_clean(split(sels, ','));
            lemma_decls_clean(split(decls, ';'));
        }
        if let Some(r) = rule_of(blocks.last()) {
            let all = prev.push(r);
            assert forall|k: int| 0 <= k < all.len() implies clean_rule(#[trigger] all[k]) by {
                if k < prev.len() {
                    assert(all[k] == prev[k]);
                }
            }
        }
    }
}

/// Whatever the text, every rule the parser gives has at least one
/// selector and one declaration; every selector names a tag, an id or a
/// class, each name non-empty, lower case and free of whitespace, `.` and
/// `#`; every declaration's name is non-empty, trimmed, lower case and free
/// of `:`, and its value non-empty and trimmed.
pub proof fn law_parse_gives_clean_rules(input: Seq<char>)
    ensures
        forall|k: int| 0 <= k < stylesheet_of(input).len() ==> clean_rule(#[trigger] stylesheet_of(input)[k]),
{
    lemma_rules_clean(split(input, '}'));
}

} // verus!
