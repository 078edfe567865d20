use vstd::prelude::*;

verus! {

/// The text that a byte sequence decodes to as UTF-8, or `None` where it is not valid UTF-8.
pub uninterp spec fn utf8_text(bytes: Seq<u8>) -> Option<Seq<char>>;

/// The text an optional string holds.
pub open spec fn text_view(s: Option<String>) -> Option<Seq<char>> {
    match s {
        Some(t) => Some(t@),
        None => None,
    }
}

/// Relies on `String::from_utf8`: `Ok` exactly when the bytes are valid UTF-8, with the
/// decoded text, which depends on the bytes alone; the empty sequence decodes to "".
#[verifier::external_body]
fn text_of(bytes: Vec<u8>) -> (r: Option<String>)
    ensures
        text_view(r) == utf8_text(bytes@),
        bytes@.len() == 0 ==> text_view(r) == Some(Seq::<char>::empty()),
{
    String::from_utf8(bytes).ok()
}

/// `text` is what `bytes` decodes to.
pub open spec fn decodes_as(text: Option<String>, bytes: Seq<u8>) -> bool {
    &&& text_view(text) == utf8_text(bytes)
    &&& bytes.len() == 0 ==> text_view(text) == Some(Seq::<char>::empty())
}

/// Decodes each line as UTF-8: entry `i` is the text of line `i`, or `None` where that line
/// is not valid text (such a line is dropped or reported by the caller).
pub fn decode_lines(lines: Vec<Vec<u8>>) -> (r: Vec<Option<String>>)
    ensures
        r@.len() == lines@.len(),
        forall|i: int| 0 <= i < lines@.len() ==> #[trigger] decodes_as(r@[i], lines@[i]@),
{
    let ghost all = lines@;
    let n = lines.len();
    let mut lines = lines;
    let mut rev: Vec<Option<String>> = Vec::new();
    while lines.len() > 0
        invariant
            lines@.len() <= n,
            n == all.len(),
            lines@ == all.subrange(0, lines@.len() as int),
            rev@.len() == n - lines@.len(),
            forall|j: int| 0 <= j < rev@.len() ==> #[trigger] decodes_as(rev@[j], all[n - 1 - j]@),
        decreases lines@.len(),
    {
        let line = lines.pop().unwrap();
        let t = text_of(line);
        rev.push(t);
        assert(lines@ =~= all.subrange(0, lines@.len() as int));
    }
    let mut r: Vec<Option<String>> = Vec::new();
    while rev.len() > 0
        invariant
            n == all.len(),
            r@.len() + rev@.len() == n,
            forall|j: int| 0 <= j < rev@.len() ==> #[trigger] decodes_as(rev@[j], all[n - 1 - j]@),
            forall|j: int| 0 <= j < r@.len() ==> #[trigger] decodes_as(r@[j], all[j]@),
        decreases rev@.len(),
    {
        let ghost k = rev@.len() - 1;
        assert(decodes_as(rev@[k], all[n - 1 - k]@));
        assert(n - 1 - k == r@.len());
        let t = rev.pop().unwrap();
        r.push(t);
        assert(r@[r@.len() - 1] == t);
    }
    r
}

} // verus!
