//! Gathering of supplier documents into one `<Hotels>` document.

use vstd::prelude::*;
use vstd::string::StringExecFns;
use vstd::string::StringSliceAdditionalSpecFns;
use vstd::utf8::decode_utf8;
use crate::text::{append_all, concat_texts, push_char, string_from_utf8};
use crate::xml::{extract_nodes_from_xml, extracts, nodes_bytes, texts_found_in, CopyView, ExtractError, XmlError};

verus! {

/// The address of one supplier's document: `url/supplier_id`.
pub fn supplier_document_url(url: &str, supplier_id: &str) -> (u: String)
    ensures
        u@ == url@ + seq!['/'] + supplier_id@,
{
    let mut u = String::new();
    u.append(url);
    push_char(&mut u, '/');
    u.append(supplier_id);
    u
}

/// `<Hotels>`, then the given parts in order, then `</Hotels>`.
pub fn hotels_document(parts: &Vec<String>) -> (doc: String)
    ensures
        doc@ == "<Hotels>"@ + concat_texts(parts@) + "</Hotels>"@,
{
    let mut doc = String::new();
    doc.append("<Hotels>");
    append_all(&mut doc, parts);
    doc.append("</Hotels>");
    doc
}

/// The sum of the counts of several fragments.
pub open spec fn fragments_count(parts: Seq<(String, usize)>) -> nat
    decreases parts.len(),
{
    if parts.len() == 0 {
        0
    } else {
        fragments_count(parts.drop_last()) + parts.last().1 as nat
    }
}

/// Adding one more fragment adds its count to the total.
pub proof fn lemma_fragments_count_push(parts: Seq<(String, usize)>, part: (String, usize))
    ensures
        fragments_count(parts.push(part)) == fragments_count(parts) + part.1,
{
    assert(parts.push(part).drop_last() =~= parts);
}

/// The total of two lists of fragments, one after the other, is the sum of
/// their totals: every fragment's count is added, whatever the others are.
pub proof fn lemma_fragments_count_append(a: Seq<(String, usize)>, b: Seq<(String, usize)>)
    ensures
        fragments_count(a + b) == fragments_count(a) + fragments_count(b),
    decreases b.len(),
{
    if b.len() == 0 {
        assert(a + b =~= a);
    } else {
        lemma_fragments_count_append(a, b.drop_last());
        assert((a + b).drop_last() =~= a + b.drop_last());
        assert((a + b).last() == b.last());
    }
}

/// The texts of several fragments.
pub open spec fn fragments_texts(parts: Seq<(String, usize)>) -> Seq<String> {
    parts.map_values(|p: (String, usize)| p.0)
}

/// Merges the fragments of several suppliers into one `<Hotels>` document,
/// in the order given, and adds up their counts the way an atomic counter
/// does (modulo the range of `usize`).
pub fn merge_hotel_fragments(parts: &Vec<(String, usize)>) -> (r: (String, usize))
    ensures
        r.0@ == "<Hotels>"@ + concat_texts(fragments_texts(parts@)) + "</Hotels>"@,
        r.1 == fragments_count(parts@) % (usize::MAX as nat + 1),
{
    let mut texts: Vec<String> = Vec::new();
    let mut count: usize = 0;
    let mut i: usize = 0;
    proof {
        assert(fragments_count(parts@.subrange(0, 0)) == 0);
        vstd::arithmetic::div_mod::lemma_small_mod(0, usize::MAX as nat + 1);
    }
    while i < parts.len()
        invariant
            0 <= i <= parts@.len(),
            texts@.len() == i,
            forall|j: int| 0 <= j < i ==> (#[trigger] texts@[j])@ == parts@[j].0@,
            count == fragments_count(parts@.subrange(0, i as int)) % (usize::MAX as nat + 1),
        decreases parts@.len() - i,
    {
        texts.push(parts[i].0.clone());
        let c = parts[i].1;
        proof {
            let prefix = parts@.subrange(0, i + 1);
            assert(prefix.drop_last() =~= parts@.subrange(0, i as int));
            vstd::arithmetic::div_mod::lemma_add_mod_noop(
                fragments_count(parts@.subrange(0, i as int)) as int,
                c as int,
                usize::MAX as int + 1,
            );
            vstd::arithmetic::div_mod::lemma_small_mod(c as nat, usize::MAX as nat + 1);
        }
        count = count.wrapping_add(c);
        i = i + 1;
    }
    proof {
        assert(parts@.subrange(0, parts@.len() as int) =~= parts@);
        lemma_concat_texts_views(texts@, fragments_texts(parts@));
    }
    (hotels_document(&texts), count)
}

/// Texts with the same characters, one by one, concatenate to the same
/// characters.
proof fn lemma_concat_texts_views(a: Seq<String>, b: Seq<String>)
    requires
        a.len() == b.len(),
        forall|j: int| 0 <= j < a.len() ==> (#[trigger] a[j])@ == b[j]@,
    ensures
        concat_texts(a) == concat_texts(b),
    decreases a.len(),
{
    if a.len() > 0 {
        lemma_concat_texts_views(a.drop_last(), b.drop_last());
    }
}

/// The `Hotels` elements of one supplier's document as text, and how many
/// there are. Fails where the extraction fails, with its error; the
/// extracted bytes are always UTF-8, so their decoding does not fail.
pub fn supplier_hotels_fragment(xml: &str) -> (r: Result<(String, usize), XmlError>)
    ensures
        xml@.len() == 0 ==> (r matches Ok((text, count)) && text@.len() == 0 && count == 0),
        exists|outcome| #[trigger] extracts(xml@, "Hotels".spec_bytes(), outcome) && match outcome {
            Ok(cs) => r matches Ok((text, count))
                && text@ == decode_utf8(nodes_bytes("Hotels".spec_bytes(), cs))
                && count == cs.len(),
            Err(ExtractError::Attribute(m)) => r matches Err(XmlError::Attribute(t)) && t@ == m,
            Err(ExtractError::Read(m)) => r matches Err(XmlError::Read(t)) && t@ == m,
        },
        r matches Ok((text, count)) ==> exists|copies: Seq<CopyView>|
            copies.len() == count
            && text@ == decode_utf8(#[trigger] nodes_bytes("Hotels".spec_bytes(), copies))
            && texts_found_in(xml.spec_bytes(), copies),
{
    let (bytes, count) = extract_nodes_from_xml(xml, "Hotels")?;
    match string_from_utf8(bytes) {
        Ok(text) => Ok((text, count)),
        Err(e) => Err(XmlError::Utf8(e)),
    }
}

} // verus!
