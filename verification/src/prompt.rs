//! The prompt builder: composes the bulk request text that enumerates every
//! method (1-based index, visibility, name, parameters, body, existing
//! docblock or "None") and asks the service for one annotation per method,
//! separated by the fixed delimiter. A sequential-mode prompt is the same
//! text built for a single method.

use vstd::prelude::*;

use vstd::string::StrSliceExecFns;
use vstd::string::StringSliceAdditionalSpecFns;

use crate::bytes::append_all;
use crate::extract::{
    kw_private, kw_private_vec, kw_protected, kw_protected_vec, kw_public, kw_public_vec,
};
use crate::method::{method_views, Method, MethodView, Visibility};

verus! {

/// Decimal digits of `n` (non-negative).
pub open spec fn dec_digits(n: int) -> Seq<u8>
    decreases n,
{
    if n < 10 {
        seq![(48 + (if 0 <= n { n } else { 0 })) as u8]
    } else {
        dec_digits(n / 10).push((48 + (n % 10)) as u8)
    }
}

/// Appends the decimal digits of `n`.
pub fn append_usize(out: &mut Vec<u8>, n: usize)
    ensures
        final(out)@ == old(out)@ + dec_digits(n as int),
    decreases n,
{
    if n < 10 {
        out.push(48 + (n as u8));
        proof {
            assert(out@ =~= old(out)@ + dec_digits(n as int));
        }
    } else {
        append_usize(out, n / 10);
        out.push(48 + ((n % 10) as u8));
        proof {
            assert(out@ =~= old(out)@ + dec_digits(n as int));
        }
    }
}

pub open spec fn lit_header_a() -> Seq<u8> {
    "Generate PHP docblocks for the following ".spec_bytes()
}

pub fn lit_header_a_vec() -> (v: Vec<u8>)
    ensures
        v@ == lit_header_a(),
{
    "Generate PHP docblocks for the following ".as_bytes_vec()
}

pub open spec fn lit_header_b() -> Seq<u8> {
    " methods. For each method, provide a concise description, @param tags for each parameter, and @return tag if applicable. If there's an existing docblock, improve it if it's vague or incomplete. Separate each docblock with '---'.\n\n".spec_bytes()
}

pub fn lit_header_b_vec() -> (v: Vec<u8>)
    ensures
        v@ == lit_header_b(),
{
    " methods. For each method, provide a concise description, @param tags for each parameter, and @return tag if applicable. If there's an existing docblock, improve it if it's vague or incomplete. Separate each docblock with '---'.\n\n".as_bytes_vec()
}

pub open spec fn lit_method() -> Seq<u8> {
    "Method ".spec_bytes()
}

pub fn lit_method_vec() -> (v: Vec<u8>)
    ensures
        v@ == lit_method(),
{
    "Method ".as_bytes_vec()
}

pub open spec fn lit_vis() -> Seq<u8> {
    ":\nVisibility: ".spec_bytes()
}

pub fn lit_vis_vec() -> (v: Vec<u8>)
    ensures
        v@ == lit_vis(),
{
    ":\nVisibility: ".as_bytes_vec()
}

pub open spec fn lit_name() -> Seq<u8> {
    "\nName: ".spec_bytes()
}

pub fn lit_name_vec() -> (v: Vec<u8>)
    ensures
        v@ == lit_name(),
{
    "\nName: ".as_bytes_vec()
}

pub open spec fn lit_params() -> Seq<u8> {
    "\nParameters: ".spec_bytes()
}

pub fn lit_params_vec() -> (v: Vec<u8>)
    ensures
        v@ == lit_params(),
{
    "\nParameters: ".as_bytes_vec()
}

pub open spec fn lit_body() -> Seq<u8> {
    "\nBody:\n".spec_bytes()
}

pub fn lit_body_vec() -> (v: Vec<u8>)
    ensures
        v@ == lit_body(),
{
    "\nBody:\n".as_bytes_vec()
}

pub open spec fn lit_existing() -> Seq<u8> {
    "\nExisting docblock (if any):\n".spec_bytes()
}

pub fn lit_existing_vec() -> (v: Vec<u8>)
    ensures
        v@ == lit_existing(),
{
    "\nExisting docblock (if any):\n".as_bytes_vec()
}

pub open spec fn lit_none() -> Seq<u8> {
    "None".spec_bytes()
}

pub fn lit_none_vec() -> (v: Vec<u8>)
    ensures
        v@ == lit_none(),
{
    "None".as_bytes_vec()
}

pub open spec fn lit_nl() -> Seq<u8> {
    "\n".spec_bytes()
}

pub fn lit_nl_vec() -> (v: Vec<u8>)
    ensures
        v@ == lit_nl(),
{
    "\n".as_bytes_vec()
}

pub open spec fn lit_joiner() -> Seq<u8> {
    "\n---\n".spec_bytes()
}

pub fn lit_joiner_vec() -> (v: Vec<u8>)
    ensures
        v@ == lit_joiner(),
{
    "\n---\n".as_bytes_vec()
}

/// The visibility keyword as prompt text.
pub open spec fn vis_text(v: Visibility) -> Seq<u8> {
    match v {
        Visibility::Public => kw_public(),
        Visibility::Protected => kw_protected(),
        Visibility::Private => kw_private(),
    }
}

pub fn vis_vec(v: &Visibility) -> (r: Vec<u8>)
    ensures
        r@ == vis_text(*v),
{
    match v {
        Visibility::Public => kw_public_vec(),
        Visibility::Protected => kw_protected_vec(),
        Visibility::Private => kw_private_vec(),
    }
}

pub open spec fn doc_or_none(d: Option<Seq<u8>>) -> Seq<u8> {
    match d {
        Some(s) => s,
        None => lit_none(),
    }
}

/// One method's enumeration block in the prompt, with its 1-based index.
pub open spec fn method_entry(i: int, m: MethodView) -> Seq<u8> {
    lit_method() + dec_digits(i + 1) + lit_vis() + vis_text(m.visibility) + lit_name() + m.name
        + lit_params() + m.parameters + lit_body() + m.body + lit_existing() + doc_or_none(
        m.docblock,
    ) + lit_nl()
}

pub fn method_entry_vec(i: usize, m: &Method) -> (v: Vec<u8>)
    requires
        i < usize::MAX,
    ensures
        v@ == method_entry(i as int, m@),
{
    let mut v: Vec<u8> = Vec::new();
    let piece = lit_method_vec();
    append_all(&mut v, &piece);
    append_usize(&mut v, i + 1);
    let piece = lit_vis_vec();
    append_all(&mut v, &piece);
    let piece = vis_vec(&m.visibility);
    append_all(&mut v, &piece);
    let piece = lit_name_vec();
    append_all(&mut v, &piece);
    append_all(&mut v, &m.name);
    let piece = lit_params_vec();
    append_all(&mut v, &piece);
    append_all(&mut v, &m.parameters);
    let piece = lit_body_vec();
    append_all(&mut v, &piece);
    append_all(&mut v, &m.body);
    let piece = lit_existing_vec();
    append_all(&mut v, &piece);
    match &m.docblock {
        Some(d) => {
            append_all(&mut v, d);
        },
        None => {
            let piece = lit_none_vec();
            append_all(&mut v, &piece);
        },
    }
    let piece = lit_nl_vec();
    append_all(&mut v, &piece);
    proof {
        assert(v@ =~= method_entry(i as int, m@));
    }
    v
}

/// The method blocks from index `i` on, each after the first of the prompt
/// preceded by the joiner line.
pub open spec fn entries_from(ms: Seq<MethodView>, i: int) -> Seq<u8>
    decreases ms.len() - i,
{
    if i < 0 || i >= ms.len() {
        Seq::empty()
    } else {
        (if i == 0 {
            method_entry(0, ms[0])
        } else {
            lit_joiner() + method_entry(i, ms[i])
        }) + entries_from(ms, i + 1)
    }
}

/// The bulk prompt: the instruction header carrying the method count, then
/// every method's block, joined by the delimiter line.
pub open spec fn bulk_prompt_spec(ms: Seq<MethodView>) -> Seq<u8> {
    lit_header_a() + dec_digits(ms.len() as int) + lit_header_b() + entries_from(ms, 0)
}

/// Composes the single bulk request text for all methods. A sequential-mode
/// request for one method is this prompt built over that method alone.
pub fn build_bulk_prompt(methods: &Vec<Method>) -> (out: Vec<u8>)
    ensures
        out@ == bulk_prompt_spec(method_views(methods@)),
{
    let ghost msv = method_views(methods@);
    let mut out: Vec<u8> = Vec::new();
    let piece = lit_header_a_vec();
    append_all(&mut out, &piece);
    append_usize(&mut out, methods.len());
    let piece = lit_header_b_vec();
    append_all(&mut out, &piece);
    proof {
        assert(out@ =~= lit_header_a() + dec_digits(msv.len() as int) + lit_header_b());
    }
    let mut i: usize = 0;
    while i < methods.len()
        invariant
            i <= methods@.len(),
            msv == method_views(methods@),
            msv.len() == methods@.len(),
            bulk_prompt_spec(msv) == out@ + entries_from(msv, i as int),
        decreases methods@.len() - i,
    {
        let e = method_entry_vec(i, &methods[i]);
        let ghost before = out@;
        if i > 0 {
            let piece = lit_joiner_vec();
            append_all(&mut out, &piece);
        }
        append_all(&mut out, &e);
        proof {
            assert(msv[i as int] == methods@[i as int]@);
            assert(entries_from(msv, i as int) == (if i == 0 {
                method_entry(0, msv[0])
            } else {
                lit_joiner() + method_entry(i as int, msv[i as int])
            }) + entries_from(msv, i + 1));
            assert(before + ((if i == 0 {
                method_entry(0, msv[0])
            } else {
                lit_joiner() + method_entry(i as int, msv[i as int])
            }) + entries_from(msv, i + 1)) =~= out@ + entries_from(msv, i + 1));
        }
        i = i + 1;
    }
    proof {
        assert(entries_from(msv, i as int) == Seq::<u8>::empty());
        assert(out@ + Seq::<u8>::empty() =~= out@);
    }
    out
}

} // verus!
