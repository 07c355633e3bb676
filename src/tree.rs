//! The element tree of an XML document, and how it is built from the
//! document's events.
use vstd::prelude::*;
use crate::xml::{read_attributes, xml_attributes};

verus! {

/// An attribute of an element, with its value unescaped.
#[derive(Debug)]
pub struct Attr {
    pub key: String,
    pub value: String,
}

/// An element of an XML document: its tag, its attributes in order, its child
/// elements in order, and its text content (the text and character data
/// directly inside it, concatenated).
#[derive(Debug)]
pub struct XmlElement {
    pub name: String,
    pub attrs: Vec<Attr>,
    pub children: Vec<XmlElement>,
    pub text: String,
}

/// One event of a document, with names, attribute values and text unescaped.
#[derive(Debug)]
pub enum Token {
    /// An opening tag: its name and its attribute text (the rest of the tag);
    /// a self-closing one when the flag holds.
    Start(String, String, bool),
    /// A closing tag, by name.
    End(String),
    /// Text or character data.
    Text(String),
    /// A declaration, comment, processing instruction or doctype.
    Other,
}

pub struct AttrV {
    pub key: Seq<char>,
    pub value: Seq<char>,
}

/// The abstract value of an element.
pub struct ElemV {
    pub name: Seq<char>,
    pub attrs: Seq<AttrV>,
    pub children: Seq<ElemV>,
    pub text: Seq<char>,
}

pub enum TokenV {
    Start(Seq<char>, Seq<char>, bool),
    End(Seq<char>),
    Text(Seq<char>),
    Other,
}

pub open spec fn attrs_view(a: Seq<Attr>) -> Seq<AttrV> {
    a.map_values(|x: Attr| AttrV { key: x.key@, value: x.value@ })
}

/// The abstract values of the first `n` elements of `cs`.
pub open spec fn kids_view(cs: Seq<XmlElement>, n: nat) -> Seq<ElemV>
    decreases cs, n,
{
    if n == 0 || n > cs.len() {
        seq![]
    } else {
        kids_view(cs, (n - 1) as nat).push(elem_view(cs[n - 1]))
    }
}

pub open spec fn elem_view(e: XmlElement) -> ElemV
    decreases e, 0nat,
{
    ElemV {
        name: e.name@,
        attrs: attrs_view(e.attrs@),
        children: kids_view(e.children@, e.children@.len()),
        text: e.text@,
    }
}

pub open spec fn token_view(t: Token) -> TokenV {
    match t {
        Token::Start(n, c, empty) => TokenV::Start(n@, c@, empty),
        Token::End(n) => TokenV::End(n@),
        Token::Text(x) => TokenV::Text(x@),
        Token::Other => TokenV::Other,
    }
}

pub open spec fn tokens_view(ts: Seq<Token>) -> Seq<TokenV> {
    ts.map_values(|t: Token| token_view(t))
}

pub proof fn lemma_kids_view(cs: Seq<XmlElement>, n: nat)
    requires
        n <= cs.len(),
    ensures
        kids_view(cs, n).len() == n,
        forall|i: int| 0 <= i < n ==> #[trigger] kids_view(cs, n)[i] == elem_view(cs[i]),
    decreases n,
{
    if n > 0 {
        lemma_kids_view(cs, (n - 1) as nat);
    }
}

/// The elements of `e`'s abstract value are those of its children.
pub proof fn lemma_elem_children(e: XmlElement)
    ensures
        elem_view(e).children.len() == e.children@.len(),
        forall|i: int| 0 <= i < e.children@.len() ==> #[trigger] elem_view(e).children[i] == elem_view(e.children@[i]),
{
    lemma_kids_view(e.children@, e.children@.len());
}

/// Where the reading of events stands: the elements still open, innermost
/// last; the root, once it is closed; and whether the events so far nest well.
pub struct BuildV {
    pub open: Seq<ElemV>,
    pub root: Option<ElemV>,
    pub ok: bool,
}

pub open spec fn failed(st: BuildV) -> BuildV {
    BuildV { open: st.open, root: st.root, ok: false }
}

/// A closed element goes under the innermost open one, or becomes the root
/// when none is open; a second root breaks the nesting.
pub open spec fn attach_v(st: BuildV, el: ElemV) -> BuildV {
    if st.open.len() == 0 {
        if st.root is Some {
            failed(st)
        } else {
            BuildV { open: st.open, root: Some(el), ok: st.ok }
        }
    } else {
        let top = st.open.last();
        let top2 = ElemV { name: top.name, attrs: top.attrs, children: top.children.push(el), text: top.text };
        BuildV { open: st.open.drop_last().push(top2), root: st.root, ok: st.ok }
    }
}

/// One event: an opening tag whose attributes read well opens an element (a self-closing one is closed
/// at once); a closing tag closes the innermost open element, whose name it
/// must carry; text joins the text of the innermost open element (outside of
/// the root it is dropped); anything else changes nothing.
pub open spec fn step(st: BuildV, t: TokenV) -> BuildV {
    if !st.ok {
        st
    } else {
        match t {
            TokenV::Start(n, c, empty) => match xml_attributes(c) {
                Some(a) => {
                    let el = ElemV { name: n, attrs: a, children: seq![], text: seq![] };
                    if empty {
                        attach_v(st, el)
                    } else {
                        BuildV { open: st.open.push(el), root: st.root, ok: true }
                    }
                },
                None => failed(st),
            },
            TokenV::End(n) => {
                if st.open.len() == 0 || st.open.last().name != n {
                    failed(st)
                } else {
                    attach_v(BuildV { open: st.open.drop_last(), root: st.root, ok: true }, st.open.last())
                }
            },
            TokenV::Text(x) => {
                if st.open.len() == 0 {
                    st
                } else {
                    let top = st.open.last();
                    let top2 = ElemV { name: top.name, attrs: top.attrs, children: top.children, text: top.text + x };
                    BuildV { open: st.open.drop_last().push(top2), root: st.root, ok: true }
                }
            },
            TokenV::Other => st,
        }
    }
}

/// The state after the first `n` events.
pub open spec fn build(ts: Seq<TokenV>, n: nat) -> BuildV
    decreases n,
{
    if n == 0 || n > ts.len() {
        BuildV { open: seq![], root: None, ok: true }
    } else {
        step(build(ts, (n - 1) as nat), ts[n - 1])
    }
}

/// The element tree of a sequence of events: defined when they nest well,
/// close every element they open, and hold exactly one root element.
pub open spec fn tree_of(ts: Seq<TokenV>) -> Option<ElemV> {
    let st = build(ts, ts.len());
    if st.ok && st.open.len() == 0 && st.root is Some {
        st.root
    } else {
        None
    }
}


pub open spec fn stack_view(v: Seq<XmlElement>) -> Seq<ElemV> {
    v.map_values(|e: XmlElement| elem_view(e))
}

pub open spec fn root_view(r: Option<XmlElement>) -> Option<ElemV> {
    match r {
        Some(e) => Some(elem_view(e)),
        None => None,
    }
}

proof fn lemma_kids_prefix(cs: Seq<XmlElement>, x: XmlElement, n: nat)
    requires
        n <= cs.len(),
    ensures
        kids_view(cs.push(x), n) == kids_view(cs, n),
    decreases n,
{
    if n > 0 {
        lemma_kids_prefix(cs, x, (n - 1) as nat);
        assert(cs.push(x)[n - 1] == cs[n - 1]);
    }
}

proof fn lemma_stays_failed(ts: Seq<TokenV>, k: nat, n: nat)
    requires
        k <= n <= ts.len(),
        !build(ts, k).ok,
    ensures
        !build(ts, n).ok,
    decreases n - k,
{
    if k < n {
        lemma_stays_failed(ts, k, (n - 1) as nat);
    }
}

/// Closes `el` into the innermost open element, or makes it the root.
fn attach(open: &mut Vec<XmlElement>, root: &mut Option<XmlElement>, el: XmlElement) -> (r: bool)
    ensures
        ({
            let st = attach_v(BuildV { open: stack_view(old(open)@), root: root_view(*old(root)), ok: true }, elem_view(el));
            &&& r == st.ok
            &&& r ==> stack_view(final(open)@) == st.open && root_view(*final(root)) == st.root
        }),
{
    let ghost before = stack_view(open@);
    match open.pop() {
        Some(mut top) => {
            let ghost t0 = top;
            let ghost ev = elem_view(el);
            top.children.push(el);
            proof {
                lemma_kids_prefix(t0.children@, el, t0.children@.len());
                assert(elem_view(top).children =~= elem_view(t0).children.push(ev));
            }
            open.push(top);
            assert(stack_view(open@) =~= before.drop_last().push(elem_view(top)));
            true
        },
        None => {
            if root.is_some() {
                false
            } else {
                *root = Some(el);
                true
            }
        },
    }
}

/// Builds the element tree of a sequence of events; `None` when they do not
/// form exactly one well-nested element.
pub fn tree_from_tokens(ts: &Vec<Token>) -> (r: Option<XmlElement>)
    ensures
        match r {
            Some(e) => tree_of(tokens_view(ts@)) == Some(elem_view(e)),
            None => tree_of(tokens_view(ts@)) is None,
        },
{
    let ghost tv = tokens_view(ts@);
    let mut open: Vec<XmlElement> = Vec::new();
    let mut root: Option<XmlElement> = None;
    let n = ts.len();
    assert(stack_view(open@) =~= build(tv, 0).open);
    for i in 0..n
        invariant
            n == ts@.len(),
            tv == tokens_view(ts@),
            build(tv, i as nat).ok,
            stack_view(open@) == build(tv, i as nat).open,
            root_view(root) == build(tv, i as nat).root,
    {
        let ghost st = build(tv, i as nat);
        assert(tv[i as int] == token_view(ts@[i as int]));
        assert(build(tv, (i + 1) as nat) == step(st, tv[i as int]));
        match &ts[i] {
            Token::Start(name, text, empty) => {
                let attrs = match read_attributes(text.as_str()) {
                    Ok(a) => a,
                    Err(_) => {
                        proof {
                            lemma_stays_failed(tv, (i + 1) as nat, n as nat);
                        }
                        return None;
                    },
                };
                let el = XmlElement { name: name.clone(), attrs, children: Vec::new(), text: String::new() };
                assert(elem_view(el).children =~= Seq::<ElemV>::empty());
                if *empty {
                    if !attach(&mut open, &mut root, el) {
                        proof {
                            lemma_stays_failed(tv, (i + 1) as nat, n as nat);
                        }
                        return None;
                    }
                } else {
                    open.push(el);
                    assert(stack_view(open@) =~= st.open.push(elem_view(el)));
                }
            },
            Token::End(name) => {
                let ghost before = open@;
                match open.pop() {
                    Some(el) => {
                        assert(before.last() == el);
                        if el.name != *name {
                            proof {
                                lemma_stays_failed(tv, (i + 1) as nat, n as nat);
                            }
                            return None;
                        }
                        assert(stack_view(open@) =~= st.open.drop_last());
                        if !attach(&mut open, &mut root, el) {
                            proof {
                                lemma_stays_failed(tv, (i + 1) as nat, n as nat);
                            }
                            return None;
                        }
                    },
                    None => {
                        proof {
                            lemma_stays_failed(tv, (i + 1) as nat, n as nat);
                        }
                        return None;
                    },
                }
            },
            Token::Text(x) => {
                let ghost before = open@;
                match open.pop() {
                    Some(mut top) => {
                        let ghost t0 = top;
                        top.text.append(x.as_str());
                        assert(elem_view(top).children == elem_view(t0).children);
                        open.push(top);
                        assert(stack_view(open@) =~= st.open.drop_last().push(elem_view(top)));
                    },
                    None => {},
                }
            },
            Token::Other => {},
        }
    }
    assert(tv.len() == n);
    if open.len() > 0 {
        return None;
    }
    root
}

} // verus!
