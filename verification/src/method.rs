//! The method record: one extracted definition, with the byte offset of the
//! whole matched construct in the original, unmodified buffer.

use vstd::prelude::*;

verus! {

/// Access modifier of a method; a definition without one is public.
#[derive(Clone, Copy, PartialEq, Eq, Debug, Structural)]
pub enum Visibility {
    Public,
    Protected,
    Private,
}

/// One extracted method definition.
///
/// `start_position` is the byte offset of the start of the whole matched
/// construct (including a captured leading docblock) in the original buffer;
/// it is only valid against that buffer. `match_len` is the length of the
/// whole matched construct, so the construct is
/// `source[start_position .. start_position + match_len]`.
///
/// Records are produced in ascending `start_position` order and must never be
/// re-sorted: generated annotations are correlated to methods by index.
#[derive(Debug, Clone, PartialEq, Eq)]
pub struct Method {
    pub visibility: Visibility,
    pub name: Vec<u8>,
    pub parameters: Vec<u8>,
    pub body: Vec<u8>,
    pub docblock: Option<Vec<u8>>,
    pub start_position: usize,
    pub match_len: usize,
}

/// The mathematical model of a [`Method`].
pub struct MethodView {
    pub visibility: Visibility,
    pub name: Seq<u8>,
    pub parameters: Seq<u8>,
    pub body: Seq<u8>,
    pub docblock: Option<Seq<u8>>,
    pub start_position: int,
    pub match_len: int,
}

impl View for Method {
    type V = MethodView;

    open spec fn view(&self) -> MethodView {
        MethodView {
            visibility: self.visibility,
            name: self.name@,
            parameters: self.parameters@,
            body: self.body@,
            docblock: match self.docblock {
                Some(d) => Some(d@),
                None => None,
            },
            start_position: self.start_position as int,
            match_len: self.match_len as int,
        }
    }
}

/// The models of a sequence of method records.
pub open spec fn method_views(ms: Seq<Method>) -> Seq<MethodView> {
    ms.map_values(|m: Method| m@)
}

pub proof fn lemma_method_views_push(ms: Seq<Method>, m: Method)
    ensures
        method_views(ms.push(m)) == method_views(ms).push(m@),
{
    assert(method_views(ms.push(m)) =~= method_views(ms).push(m@));
}

/// Attaches one generated annotation to each method, by index — the only
/// mutation a method record ever receives between extraction and rewriting.
/// Correlation is strictly positional: annotation `i` belongs to method `i`.
pub fn attach_docblocks(methods: Vec<Method>, docs: Vec<Vec<u8>>) -> (r: Vec<Method>)
    requires
        methods@.len() == docs@.len(),
    ensures
        r@.len() == methods@.len(),
        forall|i: int|
            0 <= i < r@.len() ==> r@[i]@ == (MethodView {
                docblock: Some(docs@[i]@),
                ..methods@[i]@
            }),
{
    let ghost orig_ms = methods@;
    let ghost orig_ds = docs@;
    let mut ms = methods;
    let mut ds = docs;
    let mut out: Vec<Method> = Vec::new();
    while ms.len() > 0
        invariant
            ms@.len() == ds@.len(),
            out@.len() + ms@.len() == orig_ms.len(),
            orig_ms.len() == orig_ds.len(),
            forall|i: int|
                0 <= i < out@.len() ==> out@[i]@ == (MethodView {
                    docblock: Some(orig_ds[i]@),
                    ..orig_ms[i]@
                }),
            forall|i: int|
                0 <= i < ms@.len() ==> #[trigger] ms@[i] == orig_ms[out@.len() + i],
            forall|i: int|
                0 <= i < ds@.len() ==> #[trigger] ds@[i] == orig_ds[out@.len() + i],
        decreases ms@.len(),
    {
        let mut m = ms.remove(0);
        let d = ds.remove(0);
        m.docblock = Some(d);
        out.push(m);
    }
    out
}

/// The models of a sequence of byte buffers.
pub open spec fn seq_views(ss: Seq<Vec<u8>>) -> Seq<Seq<u8>> {
    ss.map_values(|v: Vec<u8>| v@)
}

pub proof fn lemma_seq_views_push(ss: Seq<Vec<u8>>, v: Vec<u8>)
    ensures
        seq_views(ss.push(v)) == seq_views(ss).push(v@),
{
    assert(seq_views(ss.push(v)) =~= seq_views(ss).push(v@));
}

} // verus!
