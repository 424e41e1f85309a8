use crate::helper::text::{eq_str, find_char, spec_find_char};
use vstd::prelude::*;
use vstd::string::StrSliceExecFns;
use vstd::string::StringExecFns;

verus! {

/// The query parameters of a request target: a mapping from parameter key to
/// the ordered values given for it, keys in first-occurrence order and
/// repeated keys accumulating rather than overwriting.
#[derive(Debug)]
pub struct HttpTargetParameters(Vec<(String, Vec<String>)>);

/// The mathematical content of the parameter map.
pub type ParamsModel = Seq<(Seq<char>, Seq<Seq<char>>)>;

impl View for HttpTargetParameters {
    type V = ParamsModel;

    closed spec fn view(&self) -> ParamsModel {
        self.0.deep_view()
    }
}

/// The position of `key` among the parameter entries, if present.
pub open spec fn spec_param_key_index(ps: ParamsModel, key: Seq<char>) -> Option<int>
    decreases ps.len(),
{
    if ps.len() == 0 {
        None
    } else if ps[0].0 == key {
        Some(0)
    } else {
        match spec_param_key_index(ps.skip(1), key) {
            None => None,
            Some(i) => Some(i + 1),
        }
    }
}

/// `spec_param_key_index` returns the first entry holding `key`, and `None`
/// exactly when no entry holds it.
pub proof fn lemma_spec_param_key_index_characterization(ps: ParamsModel, key: Seq<char>)
    ensures
        match spec_param_key_index(ps, key) {
            Some(i) => 0 <= i < ps.len() && ps[i].0 == key && (forall|j: int|
                0 <= j < i ==> ps[j].0 != key),
            None => forall|j: int| 0 <= j < ps.len() ==> ps[j].0 != key,
        },
    decreases ps.len(),
{
    if ps.len() == 0 {
    } else if ps[0].0 == key {
    } else {
        let t = ps.skip(1);
        lemma_spec_param_key_index_characterization(t, key);
        assert(forall|j: int| 1 <= j < ps.len() ==> ps[j] == t[j - 1]);
        match spec_param_key_index(t, key) {
            None => {
                assert forall|j: int| 0 <= j < ps.len() implies ps[j].0 != key by {
                    if j >= 1 {
                        assert(t[j - 1].0 != key);
                    }
                }
            },
            Some(i) => {
                assert(ps[i + 1] == t[i]);
                assert forall|j: int| 0 <= j < i + 1 implies ps[j].0 != key by {
                    if j >= 1 {
                        assert(t[j - 1].0 != key);
                    }
                }
            },
        }
    }
}

/// A first entry holding `key` determines the result of
/// `spec_param_key_index`.
pub proof fn lemma_spec_param_key_index_exact(ps: ParamsModel, key: Seq<char>, i: int)
    requires
        0 <= i < ps.len(),
        ps[i].0 == key,
        forall|j: int| 0 <= j < i ==> ps[j].0 != key,
    ensures
        spec_param_key_index(ps, key) == Some(i),
{
    lemma_spec_param_key_index_characterization(ps, key);
    match spec_param_key_index(ps, key) {
        None => {
            assert(ps[i].0 != key);
        },
        Some(k) => {
            if k < i {
                assert(ps[k].0 != key);
            }
            if i < k {
                assert(ps[i].0 != key);
            }
        },
    }
}

/// If no entry holds `key`, `spec_param_key_index` returns `None`.
pub proof fn lemma_spec_param_key_index_none(ps: ParamsModel, key: Seq<char>)
    requires
        forall|j: int| 0 <= j < ps.len() ==> ps[j].0 != key,
    ensures
        spec_param_key_index(ps, key) is None,
{
    lemma_spec_param_key_index_characterization(ps, key);
    if let Some(i) = spec_param_key_index(ps, key) {
        assert(ps[i].0 != key);
    }
}

/// One key/value pair recorded into the accumulating map: the value appends
/// to the entry already holding the key, or opens a new entry at the end.
pub open spec fn spec_params_add(ps: ParamsModel, key: Seq<char>, value: Seq<char>) -> ParamsModel {
    match spec_param_key_index(ps, key) {
        None => ps.push((key, seq![value])),
        Some(i) => ps.update(i, (ps[i].0, ps[i].1.push(value))),
    }
}

/// One `&`-delimited unit recorded into the accumulating map: the unit splits
/// at its first `=`; a unit without `=` adds nothing (and, in the scan, ends
/// it).
pub open spec fn spec_params_unit(ps: ParamsModel, unit: Seq<char>) -> ParamsModel {
    match spec_find_char(unit, '=') {
        None => ps,
        Some(e) => spec_params_add(ps, unit.take(e), unit.skip(e + 1)),
    }
}

/// The query text scanned left to right into the accumulating map: each
/// `&`-delimited unit splits at its first `=`; the first unit without `=`
/// ends the scan entirely.
pub open spec fn spec_params_scan(s: Seq<char>, ps: ParamsModel) -> ParamsModel
    decreases s.len(),
    via spec_params_scan_decreases
{
    if s.len() == 0 {
        ps
    } else {
        match spec_find_char(s, '&') {
            None => spec_params_unit(ps, s),
            Some(a) => {
                if spec_find_char(s.take(a), '=') is None {
                    ps
                } else {
                    spec_params_scan(s.skip(a + 1), spec_params_unit(ps, s.take(a)))
                }
            },
        }
    }
}

#[via_fn]
proof fn spec_params_scan_decreases(s: Seq<char>, ps: ParamsModel) {
    if s.len() > 0 {
        if let Some(a) = spec_find_char(s, '&') {
            crate::helper::text::lemma_spec_find_char_characterization(s, '&');
        }
    }
}

/// The query string of a target: what follows the first `?`, or the whole
/// text where there is no `?` (so the scan can run on a bare query fragment).
pub open spec fn spec_query_of(target: Seq<char>) -> Seq<char> {
    match spec_find_char(target, '?') {
        None => target,
        Some(i) => target.skip(i + 1),
    }
}

/// The parameter map a target denotes, or nothing where no parameter at all
/// could be extracted.
pub open spec fn spec_params_from_str(target: Seq<char>) -> Option<ParamsModel> {
    if spec_params_scan(spec_query_of(target), Seq::empty()).len() == 0 {
        None
    } else {
        Some(spec_params_scan(spec_query_of(target), Seq::empty()))
    }
}

fn params_add(parameters: &mut Vec<(String, Vec<String>)>, key: &str, value: &str)
    ensures
        final(parameters).deep_view() == spec_params_add(old(parameters).deep_view(), key@, value@),
{
    let ghost ps0 = old(parameters).deep_view();
    let n = parameters.len();
    let mut idx: usize = 0;
    while idx < n
        invariant
            n == parameters.len(),
            *parameters == *old(parameters),
            ps0 == parameters.deep_view(),
            idx <= n,
            forall|j: int| 0 <= j < idx ==> ps0[j].0 != key@,
        decreases n - idx,
    {
        proof {
            assert(ps0[idx as int] == (parameters@[idx as int].0@, parameters@[idx as int].1.deep_view()));
        }
        if eq_str(parameters[idx].0.as_str(), key) {
            proof {
                lemma_spec_param_key_index_exact(ps0, key@, idx as int);
            }
            let mut entry = parameters.remove(idx);
            entry.1.push(value.to_owned());
            parameters.insert(idx, entry);
            proof {
                let psf = parameters.deep_view();
                let expect = ps0.update(idx as int, (ps0[idx as int].0, ps0[idx as int].1.push(value@)));
                assert(psf.len() == expect.len());
                assert forall|j: int| 0 <= j < psf.len() implies psf[j] == expect[j] by {
                    assert(parameters@[j] == if j == idx {
                        entry
                    } else {
                        old(parameters)@[j]
                    });
                }
                assert(psf =~= expect);
            }
            return ;
        }
        idx += 1;
    }
    proof {
        lemma_spec_param_key_index_none(ps0, key@);
    }
    let mut values: Vec<String> = Vec::new();
    values.push(value.to_owned());
    parameters.push((key.to_owned(), values));
    proof {
        let psf = parameters.deep_view();
        let expect = ps0.push((key@, seq![value@]));
        assert forall|j: int| 0 <= j < psf.len() implies psf[j] == expect[j] by {
            if j < ps0.len() {
                assert(parameters@[j] == old(parameters)@[j]);
            }
        }
        assert(psf =~= expect);
    }
}

impl Clone for HttpTargetParameters {
    /// The clone holds the same entries.
    fn clone(&self) -> (r: Self)
        ensures
            r@ == self@,
    {
        let n = self.0.len();
        let mut entries: Vec<(String, Vec<String>)> = Vec::new();
        let mut i: usize = 0;
        while i < n
            invariant
                n == self.0.len(),
                i <= n,
                entries.len() == i,
                forall|j: int| 0 <= j < i ==> entries.deep_view()[j] == self@[j],
            decreases n - i,
        {
            proof {
                assert(self@[i as int] == (self.0@[i as int].0@, self.0@[i as int].1.deep_view()));
            }
            let entry = &self.0[i];
            let values = entry.1.clone();
            proof {
                assert forall|k: int| 0 <= k < values@.len() implies values@[k]@
                    == entry.1@[k]@ by {
                    assert(vstd::pervasive::cloned::<String>(entry.1@[k], values@[k]));
                }
                assert(values.deep_view() =~= entry.1.deep_view());
            }
            entries.push((entry.0.clone(), values));
            i += 1;
        }
        proof {
            assert(entries.deep_view() =~= self@);
        }
        HttpTargetParameters(entries)
    }
}

impl HttpTargetParameters {
    /// Extracts the query parameters of a target: pairs split at the first
    /// `=` of each `&`-delimited unit, values for a repeated key accumulating
    /// in order; the first unit without `=` ends the scan. Fails exactly when
    /// no parameter was extracted.
    pub fn from_str(target: &str) -> (r: Result<Self, ()>)
        ensures
            match r {
                Ok(p) => spec_params_from_str(target@) == Some(p@),
                Err(()) => spec_params_from_str(target@) is None,
            },
    {
        let len = target.unicode_len();
        let query: &str = match find_char(target, '?') {
            None => target,
            Some(i) => {
                proof {
                    crate::helper::text::lemma_spec_find_char_characterization(target@, '?');
                }
                target.substring_char(i + 1, len)
            },
        };
        proof {
            assert(query@ == spec_query_of(target@));
        }
        let query_len = query.unicode_len();
        let mut parameters: Vec<(String, Vec<String>)> = Vec::new();
        let mut pos: usize = 0;
        proof {
            assert(parameters.deep_view() =~= Seq::<(Seq<char>, Seq<Seq<char>>)>::empty());
            assert(query@.skip(0) =~= query@);
        }
        while pos < query_len
            invariant
                query_len == query@.len(),
                pos <= query_len,
                spec_params_scan(query@, Seq::empty()) == spec_params_scan(
                    query@.skip(pos as int),
                    parameters.deep_view(),
                ),
            ensures
                pos >= query_len || spec_params_scan(
                    query@.skip(pos as int),
                    parameters.deep_view(),
                ) == parameters.deep_view(),
            decreases query_len - pos,
        {
            let rest = query.substring_char(pos, query_len);
            proof {
                assert(rest@ =~= query@.skip(pos as int));
            }
            let rest_len = query_len - pos;
            let (unit, next_pos): (&str, usize) = match find_char(rest, '&') {
                None => (rest, query_len),
                Some(a) => {
                    proof {
                        crate::helper::text::lemma_spec_find_char_characterization(rest@, '&');
                    }
                    let u = rest.substring_char(0, a);
                    proof {
                        assert(u@ =~= rest@.take(a as int));
                    }
                    (u, pos + a + 1)
                },
            };
            let unit_len = unit.unicode_len();
            let key_separator_index = match find_char(unit, '=') {
                None => {
                    break ;
                },
                Some(e) => e,
            };
            proof {
                crate::helper::text::lemma_spec_find_char_characterization(unit@, '=');
            }
            let key = unit.substring_char(0, key_separator_index);
            let value = unit.substring_char(key_separator_index + 1, unit_len);
            proof {
                assert(key@ =~= unit@.take(key_separator_index as int));
                assert(value@ =~= unit@.skip(key_separator_index + 1));
            }
            params_add(&mut parameters, key, value);
            proof {
                if next_pos == query_len && spec_find_char(rest@, '&') is None {
                    assert(query@.skip(query_len as int) =~= Seq::<char>::empty());
                } else {
                    let a = spec_find_char(rest@, '&')->Some_0;
                    assert(query@.skip(next_pos as int) =~= rest@.skip(a + 1));
                }
            }
            pos = next_pos;
        }
        if parameters.is_empty() {
            proof {
                assert(spec_params_scan(query@, Seq::empty()).len() == 0);
            }
            Err(())
        } else {
            proof {
                if pos >= query_len {
                    assert(query@.skip(pos as int) =~= Seq::<char>::empty());
                }
            }
            Ok(HttpTargetParameters(parameters))
        }
    }

    /// Returns the values recorded for `key`, in the order they occurred.
    pub fn get(&self, key: &str) -> (r: Option<&Vec<String>>)
        ensures
            match spec_param_key_index(self@, key@) {
                Some(i) => r matches Some(values) && values.deep_view() == self@[i].1,
                None => r is None,
            },
    {
        let n = self.0.len();
        let mut idx: usize = 0;
        while idx < n
            invariant
                n == self.0.len(),
                idx <= n,
                forall|j: int| 0 <= j < idx ==> self@[j].0 != key@,
            decreases n - idx,
        {
            proof {
                assert(self@[idx as int] == (self.0@[idx as int].0@, self.0@[idx as int].1.deep_view()));
            }
            if eq_str(self.0[idx].0.as_str(), key) {
                proof {
                    lemma_spec_param_key_index_exact(self@, key@, idx as int);
                }
                return Some(&self.0[idx].1);
            }
            idx += 1;
        }
        proof {
            lemma_spec_param_key_index_none(self@, key@);
        }
        None
    }
}

} // verus!
