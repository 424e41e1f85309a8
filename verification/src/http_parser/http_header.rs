use crate::helper::bytes::{find, spec_find};
use crate::helper::text::{
    bytes_to_str, eq_ignore_ascii_case, spec_lower, spec_trim, trim,
};
use vstd::prelude::*;
use vstd::slice::slice_subrange;
use vstd::string::StringExecFns;
use vstd::utf8::{decode_utf8, valid_utf8};

verus! {

/// The header fields of a request or response: a mapping from field-name text
/// to value text. Lookup is case-insensitive; storage preserves the original
/// (trimmed) name text; keys are unique up to ASCII case; a repeated field
/// folds its values together with `", "`.
#[derive(Debug)]
pub struct HttpHeader(Vec<(String, String)>);

/// The mathematical content of a header: its fields in storage order.
pub type HeaderModel = Seq<(Seq<char>, Seq<char>)>;

impl View for HttpHeader {
    type V = HeaderModel;

    closed spec fn view(&self) -> HeaderModel {
        self.0.deep_view()
    }
}

/// No two fields share a name, compared case-insensitively.
pub open spec fn spec_header_wf(h: HeaderModel) -> bool {
    forall|i: int, j: int|
        0 <= i < j < h.len() ==> spec_lower(h[i].0) != spec_lower(h[j].0)
}

/// The position of the field whose name matches `key` up to ASCII case, if
/// any.
pub open spec fn spec_header_key_index(h: HeaderModel, key: Seq<char>) -> Option<int>
    decreases h.len(),
{
    if h.len() == 0 {
        None
    } else if spec_lower(h[0].0) == spec_lower(key) {
        Some(0)
    } else {
        match spec_header_key_index(h.skip(1), key) {
            None => None,
            Some(i) => Some(i + 1),
        }
    }
}

/// The value recorded under `key`, compared case-insensitively.
pub open spec fn spec_header_get(h: HeaderModel, key: Seq<char>) -> Option<Seq<char>> {
    match spec_header_key_index(h, key) {
        None => None,
        Some(i) => Some(h[i].1),
    }
}

/// `spec_header_key_index` returns the first matching field, and `None`
/// exactly when no field matches.
pub proof fn lemma_spec_header_key_index_characterization(h: HeaderModel, key: Seq<char>)
    ensures
        match spec_header_key_index(h, key) {
            Some(i) => 0 <= i < h.len() && spec_lower(h[i].0) == spec_lower(key) && (forall|j: int|
                0 <= j < i ==> spec_lower(h[j].0) != spec_lower(key)),
            None => forall|j: int| 0 <= j < h.len() ==> spec_lower(h[j].0) != spec_lower(key),
        },
    decreases h.len(),
{
    if h.len() == 0 {
    } else if spec_lower(h[0].0) == spec_lower(key) {
    } else {
        let t = h.skip(1);
        lemma_spec_header_key_index_characterization(t, key);
        assert(forall|j: int| 1 <= j < h.len() ==> h[j] == t[j - 1]);
        match spec_header_key_index(t, key) {
            None => {
                assert forall|j: int| 0 <= j < h.len() implies spec_lower(h[j].0) != spec_lower(
                    key,
                ) by {
                    if j >= 1 {
                        assert(spec_lower(t[j - 1].0) != spec_lower(key));
                    }
                }
            },
            Some(i) => {
                assert(h[i + 1] == t[i]);
                assert forall|j: int| 0 <= j < i + 1 implies spec_lower(h[j].0) != spec_lower(
                    key,
                ) by {
                    if j >= 1 {
                        assert(spec_lower(t[j - 1].0) != spec_lower(key));
                    }
                }
            },
        }
    }
}

/// A first matching field determines the result of `spec_header_key_index`.
pub proof fn lemma_spec_header_key_index_exact(h: HeaderModel, key: Seq<char>, i: int)
    requires
        0 <= i < h.len(),
        spec_lower(h[i].0) == spec_lower(key),
        forall|j: int| 0 <= j < i ==> spec_lower(h[j].0) != spec_lower(key),
    ensures
        spec_header_key_index(h, key) == Some(i),
{
    lemma_spec_header_key_index_characterization(h, key);
    match spec_header_key_index(h, key) {
        None => {
            assert(spec_lower(h[i].0) != spec_lower(key));
        },
        Some(k) => {
            if k < i {
                assert(spec_lower(h[k].0) != spec_lower(key));
            }
            if i < k {
                assert(spec_lower(h[i].0) != spec_lower(key));
            }
        },
    }
}

/// If no field matches `key`, `spec_header_key_index` returns `None`.
pub proof fn lemma_spec_header_key_index_none(h: HeaderModel, key: Seq<char>)
    requires
        forall|j: int| 0 <= j < h.len() ==> spec_lower(h[j].0) != spec_lower(key),
    ensures
        spec_header_key_index(h, key) is None,
{
    lemma_spec_header_key_index_characterization(h, key);
    if let Some(i) = spec_header_key_index(h, key) {
        assert(spec_lower(h[i].0) != spec_lower(key));
    }
}

/// One parsed field recorded into the header: a second occurrence of a name
/// folds its value onto the existing one as `"<old>, <new>"`; a new name
/// opens a field at the end.
pub open spec fn spec_header_fold(h: HeaderModel, name: Seq<char>, value: Seq<char>) -> HeaderModel {
    match spec_header_key_index(h, name) {
        None => h.push((name, value)),
        Some(i) => h.update(i, (h[i].0, h[i].1 + seq![',', ' '] + value)),
    }
}

/// An upsert into the header: the field matching `key` (case-insensitively)
/// is replaced wholesale, name text included; a new key opens a field at the
/// end.
pub open spec fn spec_header_insert(h: HeaderModel, key: Seq<char>, value: Seq<char>) -> HeaderModel {
    match spec_header_key_index(h, key) {
        None => h.push((key, value)),
        Some(i) => h.update(i, (key, value)),
    }
}

/// Folding preserves the uniqueness of names.
pub proof fn lemma_spec_header_fold_wf(h: HeaderModel, name: Seq<char>, value: Seq<char>)
    requires
        spec_header_wf(h),
    ensures
        spec_header_wf(spec_header_fold(h, name, value)),
{
    lemma_spec_header_key_index_characterization(h, name);
    match spec_header_key_index(h, name) {
        None => {
            let r = h.push((name, value));
            assert forall|i: int, j: int|
                0 <= i < j < r.len() implies spec_lower(r[i].0) != spec_lower(r[j].0) by {
                if j < h.len() {
                    assert(r[i] == h[i] && r[j] == h[j]);
                } else {
                    assert(r[i] == h[i] && r[j].0 == name);
                }
            }
        },
        Some(k) => {
            let r = h.update(k, (h[k].0, h[k].1 + seq![',', ' '] + value));
            assert forall|i: int, j: int|
                0 <= i < j < r.len() implies spec_lower(r[i].0) != spec_lower(r[j].0) by {
                assert(r[i].0 == h[i].0 && r[j].0 == h[j].0);
            }
        },
    }
}

/// Upserting preserves the uniqueness of names.
pub proof fn lemma_spec_header_insert_wf(h: HeaderModel, key: Seq<char>, value: Seq<char>)
    requires
        spec_header_wf(h),
    ensures
        spec_header_wf(spec_header_insert(h, key, value)),
{
    lemma_spec_header_key_index_characterization(h, key);
    match spec_header_key_index(h, key) {
        None => {
            let r = h.push((key, value));
            assert forall|i: int, j: int|
                0 <= i < j < r.len() implies spec_lower(r[i].0) != spec_lower(r[j].0) by {
                if j < h.len() {
                    assert(r[i] == h[i] && r[j] == h[j]);
                } else {
                    assert(r[i] == h[i] && r[j].0 == key);
                }
            }
        },
        Some(k) => {
            let r = h.update(k, (key, value));
            assert forall|i: int, j: int|
                0 <= i < j < r.len() implies spec_lower(r[i].0) != spec_lower(r[j].0) by {
                if i != k && j != k {
                    assert(r[i].0 == h[i].0 && r[j].0 == h[j].0);
                } else if i == k {
                    assert(spec_lower(r[i].0) == spec_lower(h[k].0) && r[j].0 == h[j].0);
                } else {
                    assert(spec_lower(r[j].0) == spec_lower(h[k].0) && r[i].0 == h[i].0);
                }
            }
        },
    }
}

/// One raw header line recorded: both sides must be valid UTF-8 (else the
/// line is dropped); each side is trimmed of surrounding whitespace.
pub open spec fn spec_header_line(h: HeaderModel, name_bytes: Seq<u8>, value_bytes: Seq<u8>) -> HeaderModel {
    if valid_utf8(name_bytes) && valid_utf8(value_bytes) {
        spec_header_fold(
            h,
            spec_trim(decode_utf8(name_bytes)),
            spec_trim(decode_utf8(value_bytes)),
        )
    } else {
        h
    }
}

/// One raw line split at its first `:` and recorded; a line without `:` adds
/// nothing.
pub open spec fn spec_header_scan_line(h: HeaderModel, line: Seq<u8>) -> HeaderModel {
    match spec_find(line, seq![58u8]) {
        None => h,
        Some(c) => spec_header_line(h, line.take(c), line.skip(c + 1)),
    }
}

/// The raw header block scanned left to right: lines end at `\r\n` (or the
/// end of the block) and split at their first `:`; a line without `:` is
/// skipped; once no `:` remains anywhere, the remainder is abandoned.
pub open spec fn spec_header_scan(block: Seq<u8>, h: HeaderModel) -> HeaderModel
    decreases block.len(),
    via spec_header_scan_decreases
{
    if block.len() == 0 {
        h
    } else if spec_find(block, seq![58u8]) is None {
        h
    } else {
        match spec_find(block, seq![13u8, 10u8]) {
            None => spec_header_scan_line(h, block),
            Some(j) => spec_header_scan(
                block.skip(j + 2),
                spec_header_scan_line(h, block.take(j)),
            ),
        }
    }
}

#[via_fn]
proof fn spec_header_scan_decreases(block: Seq<u8>, h: HeaderModel) {
    if block.len() > 0 && spec_find(block, seq![58u8]) is Some {
        if let Some(j) = spec_find(block, seq![13u8, 10u8]) {
            crate::helper::bytes::lemma_spec_find_characterization(block, seq![13u8, 10u8]);
        }
    }
}

/// Recording one line preserves the uniqueness of names.
pub proof fn lemma_spec_header_scan_line_wf(h: HeaderModel, line: Seq<u8>)
    requires
        spec_header_wf(h),
    ensures
        spec_header_wf(spec_header_scan_line(h, line)),
{
    if let Some(c) = spec_find(line, seq![58u8]) {
        if valid_utf8(line.take(c)) && valid_utf8(line.skip(c + 1)) {
            lemma_spec_header_fold_wf(
                h,
                spec_trim(decode_utf8(line.take(c))),
                spec_trim(decode_utf8(line.skip(c + 1))),
            );
        }
    }
}

/// Scanning a raw block preserves the uniqueness of names.
pub proof fn lemma_spec_header_scan_wf(block: Seq<u8>, h: HeaderModel)
    requires
        spec_header_wf(h),
    ensures
        spec_header_wf(spec_header_scan(block, h)),
    decreases block.len(),
{
    if block.len() > 0 && spec_find(block, seq![58u8]) is Some {
        match spec_find(block, seq![13u8, 10u8]) {
            None => {
                lemma_spec_header_scan_line_wf(h, block);
            },
            Some(j) => {
                crate::helper::bytes::lemma_spec_find_characterization(block, seq![13u8, 10u8]);
                lemma_spec_header_scan_line_wf(h, block.take(j));
                lemma_spec_header_scan_wf(
                    block.skip(j + 2),
                    spec_header_scan_line(h, block.take(j)),
                );
            },
        }
    }
}

/// Every header a raw block denotes has unique names.
pub proof fn lemma_spec_header_from_bytes_wf(block: Seq<u8>)
    ensures
        match spec_header_from_bytes(block) {
            Some(h) => spec_header_wf(h),
            None => true,
        },
{
    lemma_spec_header_scan_wf(block, Seq::empty());
}

/// The header a raw block denotes, or nothing where no usable field at all
/// was parsed (an empty block and a block of only malformed lines are alike
/// in this: both yield `None`).
pub open spec fn spec_header_from_bytes(block: Seq<u8>) -> Option<HeaderModel> {
    if spec_header_scan(block, Seq::empty()).len() == 0 {
        None
    } else {
        Some(spec_header_scan(block, Seq::empty()))
    }
}

/// The wire text of a header: every field as `"<name>: <value>"`, each line
/// closed by `"\r\n"`.
pub open spec fn spec_header_text(h: HeaderModel) -> Seq<char>
    decreases h.len(),
{
    if h.len() == 0 {
        Seq::empty()
    } else {
        spec_header_text(h.take(h.len() - 1)) + h[h.len() - 1].0 + seq![':', ' '] + h[h.len()
            - 1].1 + seq!['\r', '\n']
    }
}

fn header_fold(fields: &mut Vec<(String, String)>, name: &str, value: &str)
    ensures
        final(fields).deep_view() == spec_header_fold(old(fields).deep_view(), name@, value@),
{
    let ghost h0 = old(fields).deep_view();
    let n = fields.len();
    let mut idx: usize = 0;
    while idx < n
        invariant
            n == fields.len(),
            *fields == *old(fields),
            h0 == fields.deep_view(),
            idx <= n,
            forall|j: int| 0 <= j < idx ==> spec_lower(h0[j].0) != spec_lower(name@),
        decreases n - idx,
    {
        proof {
            assert(h0[idx as int] == (fields@[idx as int].0@, fields@[idx as int].1@));
        }
        if eq_ignore_ascii_case(fields[idx].0.as_str(), name) {
            proof {
                lemma_spec_header_key_index_exact(h0, name@, idx as int);
            }
            let mut entry = fields.remove(idx);
            entry.1.append(", ");
            entry.1.append(value);
            fields.insert(idx, entry);
            proof {
                reveal_strlit(", ");
                assert(", "@ =~= seq![',', ' ']);
                let hf = fields.deep_view();
                let expect = h0.update(idx as int, (h0[idx as int].0, h0[idx as int].1 + seq![',', ' '] + value@));
                assert forall|j: int| 0 <= j < hf.len() implies hf[j] == expect[j] by {
                    assert(fields@[j] == if j == idx {
                        entry
                    } else {
                        old(fields)@[j]
                    });
                }
                assert(hf =~= expect);
            }
            return ;
        }
        idx += 1;
    }
    proof {
        lemma_spec_header_key_index_none(h0, name@);
    }
    fields.push((name.to_owned(), value.to_owned()));
    proof {
        let hf = fields.deep_view();
        let expect = h0.push((name@, value@));
        assert forall|j: int| 0 <= j < hf.len() implies hf[j] == expect[j] by {
            if j < h0.len() {
                assert(fields@[j] == old(fields)@[j]);
            }
        }
        assert(hf =~= expect);
    }
}

impl Clone for HttpHeader {
    /// The clone holds the same fields.
    fn clone(&self) -> (r: Self)
        ensures
            r@ == self@,
    {
        let n = self.0.len();
        let mut fields: Vec<(String, String)> = Vec::new();
        let mut i: usize = 0;
        while i < n
            invariant
                n == self.0.len(),
                i <= n,
                fields.len() == i,
                forall|j: int| 0 <= j < i ==> fields.deep_view()[j] == self@[j],
            decreases n - i,
        {
            proof {
                assert(self@[i as int] == (self.0@[i as int].0@, self.0@[i as int].1@));
            }
            let pair = &self.0[i];
            fields.push((pair.0.clone(), pair.1.clone()));
            i += 1;
        }
        proof {
            assert(fields.deep_view() =~= self@);
        }
        HttpHeader(fields)
    }
}

impl HttpHeader {
    /// Returns a header with no fields.
    pub fn new() -> (r: Self)
        ensures
            r@ == Seq::<(Seq<char>, Seq<char>)>::empty(),
            spec_header_wf(r@),
    {
        let fields: Vec<(String, String)> = Vec::new();
        proof {
            assert(fields.deep_view() =~= Seq::<(Seq<char>, Seq<char>)>::empty());
        }
        HttpHeader(fields)
    }

    /// Parses a raw header block: lines end at `\r\n` (or the end of the
    /// block) and split at their first `:`; both sides are trimmed; a line
    /// that is not valid text, or that lacks a `:`, is skipped; once no `:`
    /// remains anywhere, the rest of the block is abandoned; repeated names
    /// fold left to right with `", "`. Returns `None` where no usable field
    /// was parsed.
    pub fn from_bytes(bytes: &[u8]) -> (r: Option<Self>)
        ensures
            match r {
                Some(h) => spec_header_from_bytes(bytes@) == Some(h@) && spec_header_wf(h@),
                None => spec_header_from_bytes(bytes@) is None,
            },
    {
        let mut colon: Vec<u8> = Vec::new();
        colon.push(58);
        let mut crlf: Vec<u8> = Vec::new();
        crlf.push(13);
        crlf.push(10);
        proof {
            assert(colon@ =~= seq![58u8]);
            assert(crlf@ =~= seq![13u8, 10u8]);
        }
        let len = bytes.len();
        let mut fields: Vec<(String, String)> = Vec::new();
        let mut pos: usize = 0;
        proof {
            assert(fields.deep_view() =~= Seq::<(Seq<char>, Seq<char>)>::empty());
            assert(bytes@.skip(0) =~= bytes@);
        }
        while pos < len
            invariant
                len == bytes@.len(),
                pos <= len,
                colon@ == seq![58u8],
                crlf@ == seq![13u8, 10u8],
                spec_header_wf(fields.deep_view()),
                spec_header_scan(bytes@, Seq::empty()) == spec_header_scan(
                    bytes@.skip(pos as int),
                    fields.deep_view(),
                ),
            ensures
                pos >= len || spec_find(bytes@.skip(pos as int), seq![58u8]) is None,
            decreases len - pos,
        {
            let rest = slice_subrange(bytes, pos, len);
            proof {
                assert(rest@ =~= bytes@.skip(pos as int));
            }
            let rest_len = len - pos;
            if find(rest, colon.as_slice()).is_none() {
                break ;
            }
            let (line, next_pos): (&[u8], usize) = match find(rest, crlf.as_slice()) {
                None => (rest, len),
                Some(j) => {
                    proof {
                        crate::helper::bytes::lemma_spec_find_characterization(rest@, crlf@);
                    }
                    let l = slice_subrange(rest, 0, j);
                    proof {
                        assert(l@ =~= rest@.take(j as int));
                    }
                    (l, pos + j + 2)
                },
            };
            let line_len = line.len();
            let ghost h_before = fields.deep_view();
            match find(line, colon.as_slice()) {
                None => {},
                Some(name_separator_index) => {
                    proof {
                        crate::helper::bytes::lemma_spec_find_characterization(line@, colon@);
                    }
                    let name_bytes = slice_subrange(line, 0, name_separator_index);
                    let value_bytes = slice_subrange(line, name_separator_index + 1, line_len);
                    proof {
                        assert(name_bytes@ =~= line@.take(name_separator_index as int));
                        assert(value_bytes@ =~= line@.skip(name_separator_index + 1));
                    }
                    match bytes_to_str(name_bytes) {
                        None => {},
                        Some(name_text) => {
                            match bytes_to_str(value_bytes) {
                                None => {},
                                Some(value_text) => {
                                    let name_trimmed = trim(name_text);
                                    let value_trimmed = trim(value_text);
                                    proof {
                                        lemma_spec_header_fold_wf(
                                            h_before,
                                            name_trimmed@,
                                            value_trimmed@,
                                        );
                                    }
                                    header_fold(&mut fields, name_trimmed, value_trimmed);
                                },
                            }
                        },
                    }
                },
            }
            proof {
                assert(fields.deep_view() == spec_header_scan_line(h_before, line@));
                if spec_find(rest@, crlf@) is None {
                    assert(bytes@.skip(len as int) =~= Seq::<u8>::empty());
                } else {
                    let j = spec_find(rest@, crlf@)->Some_0;
                    assert(bytes@.skip(next_pos as int) =~= rest@.skip(j + 2));
                }
            }
            pos = next_pos;
        }
        proof {
            if pos < len {
                assert(spec_header_scan(bytes@.skip(pos as int), fields.deep_view())
                    == fields.deep_view());
            } else {
                assert(bytes@.skip(pos as int) =~= Seq::<u8>::empty());
            }
        }
        if fields.is_empty() {
            proof {
                assert(fields.deep_view().len() == 0);
            }
            None
        } else {
            Some(HttpHeader(fields))
        }
    }

    /// Replaces the field matching `key` (name text included), or records a
    /// new field where none matches.
    pub fn insert(&mut self, key: &str, value: &str)
        ensures
            final(self)@ == spec_header_insert(old(self)@, key@, value@),
            spec_header_wf(old(self)@) ==> spec_header_wf(final(self)@),
    {
        proof {
            if spec_header_wf(self@) {
                lemma_spec_header_insert_wf(self@, key@, value@);
            }
        }
        let ghost h0 = self@;
        let n = self.0.len();
        let mut idx: usize = 0;
        while idx < n
            invariant
                n == self.0.len(),
                *self == *old(self),
                h0 == self@,
                idx <= n,
                forall|j: int| 0 <= j < idx ==> spec_lower(h0[j].0) != spec_lower(key@),
            decreases n - idx,
        {
            proof {
                assert(h0[idx as int] == (self.0@[idx as int].0@, self.0@[idx as int].1@));
            }
            if eq_ignore_ascii_case(self.0[idx].0.as_str(), key) {
                proof {
                    lemma_spec_header_key_index_exact(h0, key@, idx as int);
                }
                let _ = self.0.remove(idx);
                self.0.insert(idx, (key.to_owned(), value.to_owned()));
                proof {
                    let hf = self@;
                    let expect = h0.update(idx as int, (key@, value@));
                    assert forall|j: int| 0 <= j < hf.len() implies hf[j] == expect[j] by {
                        if j != idx {
                            assert(self.0@[j] == old(self).0@[j]);
                        }
                    }
                    assert(hf =~= expect);
                }
                return ;
            }
            idx += 1;
        }
        proof {
            lemma_spec_header_key_index_none(h0, key@);
        }
        self.0.push((key.to_owned(), value.to_owned()));
        proof {
            let hf = self@;
            let expect = h0.push((key@, value@));
            assert forall|j: int| 0 <= j < hf.len() implies hf[j] == expect[j] by {
                if j < h0.len() {
                    assert(self.0@[j] == old(self).0@[j]);
                }
            }
            assert(hf =~= expect);
        }
    }

    /// Returns the value recorded under `key`, compared case-insensitively.
    pub fn get_value(&self, key: &str) -> (r: Option<&String>)
        ensures
            match spec_header_get(self@, key@) {
                Some(v) => r matches Some(value) && value@ == v,
                None => r is None,
            },
    {
        let n = self.0.len();
        let mut idx: usize = 0;
        while idx < n
            invariant
                n == self.0.len(),
                idx <= n,
                forall|j: int| 0 <= j < idx ==> spec_lower(self@[j].0) != spec_lower(key@),
            decreases n - idx,
        {
            proof {
                assert(self@[idx as int] == (self.0@[idx as int].0@, self.0@[idx as int].1@));
            }
            if eq_ignore_ascii_case(self.0[idx].0.as_str(), key) {
                proof {
                    lemma_spec_header_key_index_exact(self@, key@, idx as int);
                }
                return Some(&self.0[idx].1);
            }
            idx += 1;
        }
        proof {
            lemma_spec_header_key_index_none(self@, key@);
        }
        None
    }

    /// Renders the header as wire text: every field as `"<name>: <value>"`,
    /// each line closed by `"\r\n"`.
    pub fn to_text(&self) -> (r: String)
        ensures
            r@ == spec_header_text(self@),
    {
        let mut text = String::new();
        let n = self.0.len();
        let mut i: usize = 0;
        proof {
            assert(text@ =~= spec_header_text(self@.take(0)));
        }
        while i < n
            invariant
                n == self@.len(),
                i <= n,
                text@ == spec_header_text(self@.take(i as int)),
            decreases n - i,
        {
            proof {
                assert(self@[i as int] == (self.0@[i as int].0@, self.0@[i as int].1@));
            }
            let pair = &self.0[i];
            text.append(pair.0.as_str());
            text.append(": ");
            text.append(pair.1.as_str());
            text.append("\r\n");
            proof {
                reveal_strlit(": ");
                reveal_strlit("\r\n");
                assert(self@.take(i + 1).take(i as int) =~= self@.take(i as int));
                assert(self@.take(i + 1)[i as int] == self@[i as int]);
                assert(text@ =~= spec_header_text(self@.take(i + 1)));
            }
            i += 1;
        }
        proof {
            assert(self@.take(n as int) =~= self@);
        }
        text
    }

    /// Returns how many fields the header holds.
    pub fn len(&self) -> (r: usize)
        ensures
            r == self@.len(),
    {
        self.0.len()
    }

    /// Returns the field at `index`, for walking the header in storage order.
    pub fn field_at(&self, index: usize) -> (r: (&String, &String))
        requires
            index < self@.len(),
        ensures
            r.0@ == self@[index as int].0,
            r.1@ == self@[index as int].1,
    {
        proof {
            assert(self@[index as int] == (self.0@[index as int].0@, self.0@[index as int].1@));
        }
        (&self.0[index].0, &self.0[index].1)
    }
}

} // verus!
