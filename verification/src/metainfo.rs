use vstd::prelude::*;

use crate::decoder::{decode_at, dict_insert, key_index, DecodeStep, FmtError, TorrentDecoder};
use crate::element::{entries_model, elems_model, value_model, Contents, Element, ElementError,
    ValueModel};

verus! {

/// Why a decoded value could not be projected to a metainfo record.
#[derive(Debug, PartialEq)]
pub enum MetainfoDecodingError {
    BadFormat(FmtError),
    FileWasntDictionary(ElementError),
    FileWithoutAnnounce,
    FileWithoutInfo,
    AnnounceWasntString(ElementError),
    BadlyFormatedAnnounceList(ElementError),
    BadlyFormatedCreationDate(ElementError),
    CreationDateOutOfRange,
    BadlyFormatedComment(ElementError),
    BadlyFormatedCreatedBy(ElementError),
    BadlyFormatedEncoding(ElementError),
    InfoWasntDictionary(ElementError),
}

/// Mathematical model of a metainfo record.
#[verifier::ext_equal]
pub struct MetainfoModel {
    pub announce: Seq<char>,
    pub announce_list: Option<Seq<Seq<Seq<char>>>>,
    pub creation_date: Option<int>,
    pub comment: Option<Seq<char>>,
    pub created_by: Option<Seq<char>>,
    pub encoding: Option<Seq<char>>,
    pub info: Seq<(Seq<char>, ValueModel)>,
}

/// The typed projection of a decoded torrent file: its tracker URL, the
/// optional tiered tracker list, optional dates and strings, and the
/// opaque info dictionary.  The creation date is kept as seconds since
/// the Unix epoch.
#[derive(Debug, PartialEq)]
pub struct Metainfo {
    pub announce: String,
    pub announce_list: Option<Vec<Vec<String>>>,
    pub creation_date: Option<i64>,
    pub comment: Option<String>,
    pub created_by: Option<String>,
    pub encoding: Option<String>,
    pub info: Vec<(String, Element)>,
}

impl View for Metainfo {
    type V = MetainfoModel;

    open spec fn view(&self) -> MetainfoModel {
        MetainfoModel {
            announce: self.announce@,
            announce_list: self.announce_list.deep_view(),
            creation_date: match self.creation_date {
                Some(n) => Some(n as int),
                None => None,
            },
            comment: match self.comment {
                Some(s) => Some(s@),
                None => None,
            },
            created_by: match self.created_by {
                Some(s) => Some(s@),
                None => None,
            },
            encoding: match self.encoding {
                Some(s) => Some(s@),
                None => None,
            },
            info: entries_model(self.info@),
        }
    }
}

/// The value under a key, by the key's first position.
pub open spec fn dict_get(
    entries: Seq<(Seq<char>, ValueModel)>,
    k: Seq<char>,
) -> Option<ValueModel> {
    let i = key_index(entries, k);
    if i >= 0 {
        Some(entries[i].1)
    } else {
        None
    }
}

/// The entries with the key's first occurrence taken out.
pub open spec fn dict_remove(
    entries: Seq<(Seq<char>, ValueModel)>,
    k: Seq<char>,
) -> Seq<(Seq<char>, ValueModel)> {
    let i = key_index(entries, k);
    if i >= 0 {
        entries.remove(i)
    } else {
        entries
    }
}

/// The texts of one tracker tier, from position `i` on: every member must
/// be a textual byte string.
pub open spec fn tier_strings(items: Seq<ValueModel>, i: int) -> Result<
    Seq<Seq<char>>,
    ElementError,
>
    decreases items.len() - i,
{
    if !(0 <= i < items.len()) {
        Ok(Seq::empty())
    } else {
        match items[i] {
            ValueModel::Str(t) => match tier_strings(items, i + 1) {
                Ok(r) => Ok(seq![t] + r),
                Err(e) => Err(e),
            },
            _ => Err(ElementError::WasntString),
        }
    }
}

/// The tracker tiers from position `i` on: every member must be a list of
/// textual byte strings.
pub open spec fn tiers_model(items: Seq<ValueModel>, i: int) -> Result<
    Seq<Seq<Seq<char>>>,
    ElementError,
>
    decreases items.len() - i,
{
    if !(0 <= i < items.len()) {
        Ok(Seq::empty())
    } else {
        match items[i] {
            ValueModel::List(tier) => match tier_strings(tier, 0) {
                Ok(strs) => match tiers_model(items, i + 1) {
                    Ok(r) => Ok(seq![strs] + r),
                    Err(e) => Err(e),
                },
                Err(e) => Err(e),
            },
            _ => Err(ElementError::WasntList),
        }
    }
}

/// What an `announce-list` value projects to: a list of lists of texts.
pub open spec fn announce_list_model(v: ValueModel) -> Result<Seq<Seq<Seq<char>>>, ElementError> {
    match v {
        ValueModel::List(items) => tiers_model(items, 0),
        _ => Err(ElementError::WasntList),
    }
}

/// Whether chrono can represent this many seconds since the Unix epoch as
/// a UTC calendar time.
pub uninterp spec fn in_utc_range(secs: int) -> bool;

/// What projecting a decoded root value to a metainfo record yields.
/// Recognized keys are consumed one after the other; every key left over
/// is ignored.
pub open spec fn spec_project(root: ValueModel) -> Result<MetainfoModel, MetainfoDecodingError> {
    match root {
        ValueModel::Dict(d0) => match dict_get(d0, "announce"@) {
            None => Err(MetainfoDecodingError::FileWithoutAnnounce),
            Some(av) => match av {
                ValueModel::Str(announce) => {
                    let d1 = dict_remove(d0, "announce"@);
                    let al = dict_get(d1, "announce-list"@);
                    let d2 = dict_remove(d1, "announce-list"@);
                    match al {
                        Some(lv) => match announce_list_model(lv) {
                            Ok(tiers) => spec_project_dated(
                                announce,
                                Some(tiers),
                                d2,
                            ),
                            Err(e) => Err(MetainfoDecodingError::BadlyFormatedAnnounceList(e)),
                        },
                        None => spec_project_dated(announce, None, d2),
                    }
                },
                _ => Err(MetainfoDecodingError::AnnounceWasntString(ElementError::WasntString)),
            },
        },
        _ => Err(MetainfoDecodingError::FileWasntDictionary(ElementError::WasntDictionary)),
    }
}

/// The projection past the announce fields: creation date, the optional
/// strings, then the info dictionary.
pub open spec fn spec_project_dated(
    announce: Seq<char>,
    announce_list: Option<Seq<Seq<Seq<char>>>>,
    d2: Seq<(Seq<char>, ValueModel)>,
) -> Result<MetainfoModel, MetainfoDecodingError> {
    let cd = dict_get(d2, "creation date"@);
    let d3 = dict_remove(d2, "creation date"@);
    match cd {
        Some(cv) => match cv {
            ValueModel::Int(n) => {
                if in_utc_range(n) {
                    spec_project_strings(announce, announce_list, Some(n), d3)
                } else {
                    Err(MetainfoDecodingError::CreationDateOutOfRange)
                }
            },
            _ => Err(MetainfoDecodingError::BadlyFormatedCreationDate(ElementError::WasntInt)),
        },
        None => spec_project_strings(announce, announce_list, None, d3),
    }
}

/// The value under an optional key that must be a textual byte string
/// when present, and the entries with it taken out.
pub open spec fn take_string(d: Seq<(Seq<char>, ValueModel)>, key: Seq<char>) -> Result<
    (Option<Seq<char>>, Seq<(Seq<char>, ValueModel)>),
    ElementError,
> {
    match dict_get(d, key) {
        None => Ok((None, d)),
        Some(v) => match v {
            ValueModel::Str(t) => Ok((Some(t), dict_remove(d, key))),
            _ => Err(ElementError::WasntString),
        },
    }
}

/// The projection past the dates: the three optional strings, then the
/// info dictionary.
pub open spec fn spec_project_strings(
    announce: Seq<char>,
    announce_list: Option<Seq<Seq<Seq<char>>>>,
    creation_date: Option<int>,
    d3: Seq<(Seq<char>, ValueModel)>,
) -> Result<MetainfoModel, MetainfoDecodingError> {
    match take_string(d3, "comment"@) {
        Err(e) => Err(MetainfoDecodingError::BadlyFormatedComment(e)),
        Ok((comment, d4)) => match take_string(d4, "created_by"@) {
            Err(e) => Err(MetainfoDecodingError::BadlyFormatedCreatedBy(e)),
            Ok((created_by, d5)) => match take_string(d5, "encoding"@) {
                Err(e) => Err(MetainfoDecodingError::BadlyFormatedEncoding(e)),
                Ok((encoding, d6)) => match dict_get(d6, "info"@) {
                    None => Err(MetainfoDecodingError::FileWithoutInfo),
                    Some(iv) => match iv {
                        ValueModel::Dict(info) => Ok(
                            MetainfoModel {
                                announce,
                                announce_list,
                                creation_date,
                                comment,
                                created_by,
                                encoding,
                                info,
                            },
                        ),
                        _ => Err(MetainfoDecodingError::InfoWasntDictionary(
                            ElementError::WasntDictionary,
                        )),
                    },
                },
            },
        },
    }
}

/// What decoding a whole buffer into a metainfo record yields: the value
/// at the cursor, projected.  An end-of-container marker at the root is
/// no value.
pub open spec fn spec_metafile(s: Seq<u8>, i: int) -> Result<MetainfoModel, MetainfoDecodingError> {
    match decode_at(s, i) {
        DecodeStep::Fail(e) => Err(MetainfoDecodingError::BadFormat(e)),
        DecodeStep::End(_) => Err(MetainfoDecodingError::BadFormat(FmtError::WrongCharacter)),
        DecodeStep::Value(v, _) => spec_project(v),
    }
}

/// Relies on chrono's TimeZone::timestamp_opt on Utc: by its
/// documentation it returns MappedLocalTime::None exactly on an
/// out-of-range number of seconds, and otherwise Single.
#[verifier::external_body]
fn utc_timestamp_in_range(secs: i64) -> (r: bool)
    ensures
        r == in_utc_range(secs as int),
{
    match chrono::TimeZone::timestamp_opt(&chrono::Utc, secs, 0) {
        chrono::MappedLocalTime::Single(_) => true,
        chrono::MappedLocalTime::Ambiguous(_, _) => true,
        chrono::MappedLocalTime::None => false,
    }
}

/// Takes the entry under the key out of the dictionary and hands its
/// value back, or nothing when the key is absent.
fn dict_remove_entry(entries: &mut Vec<(String, Element)>, key: &String) -> (r: Option<Element>)
    ensures
        match r {
            Some(e) => dict_get(entries_model(old(entries)@), key@) == Some(value_model(e)),
            None => dict_get(entries_model(old(entries)@), key@) is None,
        },
        entries_model(final(entries)@) == dict_remove(entries_model(old(entries)@), key@),
{
    let ghost m0 = entries_model(entries@);
    let n = entries.len();
    let mut i: usize = 0;
    while i < n
        invariant
            i <= n == entries@.len(),
            entries@ == old(entries)@,
            m0 == entries_model(entries@),
            forall|q: int| 0 <= q < i ==> (#[trigger] entries@[q]).0@ != key@,
        decreases n - i,
    {
        if crate::decoder::compare_key(&entries[i].0, key) {
            proof {
                crate::element::lemma_entries_model_index(entries@);
                crate::decoder::lemma_key_index(m0, key@);
                assert(m0[i as int].0 == key@);
                assert(forall|q: int| 0 <= q < i ==> (#[trigger] m0[q]).0 != key@);
                assert(key_index(m0, key@) == i as int);
            }
            let entry = entries.remove(i);
            proof {
                crate::element::lemma_entries_model_index(entries@);
                crate::element::lemma_entries_model_index(old(entries)@);
                assert(entries_model(entries@) =~= m0.remove(i as int));
            }
            return Some(entry.1);
        }
        i = i + 1;
    }
    proof {
        crate::element::lemma_entries_model_index(entries@);
        crate::decoder::lemma_key_index(m0, key@);
        if key_index(m0, key@) >= 0 {
            assert(entries@[key_index(m0, key@)].0@ == key@);
        }
        assert(key_index(m0, key@) == -1);
    }
    None
}

/// One tracker tier: every member must be a textual byte string.
fn convert_tier(tier: &Vec<Element>) -> (r: Result<Vec<String>, ElementError>)
    ensures
        match (r, tier_strings(elems_model(tier@), 0)) {
            (Ok(v), Ok(m)) => v.deep_view() == m,
            (Err(e), Err(ee)) => e == ee,
            _ => false,
        },
{
    let ghost full = elems_model(tier@);
    let n = tier.len();
    let mut out: Vec<String> = Vec::new();
    let mut idx: usize = 0;
    proof {
        crate::element::lemma_elems_model_index(tier@);
        if tier_strings(full, 0) is Ok {
            assert(out.deep_view() + tier_strings(full, 0)->Ok_0 =~= tier_strings(full, 0)->Ok_0);
        }
    }
    while idx < n
        invariant
            idx <= n == tier@.len(),
            full == elems_model(tier@),
            full.len() == n,
            forall|q: int| 0 <= q < n ==> full[q] == value_model(tier@[q]),
            tier_strings(full, 0) == (match tier_strings(full, idx as int) {
                Ok(rest) => Ok::<Seq<Seq<char>>, ElementError>(out.deep_view() + rest),
                Err(e) => Err(e),
            }),
        decreases n - idx,
    {
        match &tier[idx] {
            Element::ByteString(c) => match c {
                Contents::String(st) => {
                    let ghost out0 = out.deep_view();
                    out.push(st.clone());
                    proof {
                        assert(out.deep_view() =~= out0.push(st@));
                        if tier_strings(full, idx + 1) is Ok {
                            let rest = tier_strings(full, idx + 1)->Ok_0;
                            assert(out0 + (seq![st@] + rest) =~= out0.push(st@) + rest);
                        }
                    }
                },
                Contents::Bytes(_) => {
                    return Err(ElementError::WasntString);
                },
            },
            _ => {
                return Err(ElementError::WasntString);
            },
        }
        idx = idx + 1;
    }
    proof {
        assert(out.deep_view() + Seq::<Seq<char>>::empty() =~= out.deep_view());
    }
    Ok(out)
}

/// The whole tracker list: every member must be a list of textual byte
/// strings.
fn convert_announce_list(el: Element) -> (r: Result<Vec<Vec<String>>, ElementError>)
    ensures
        match (r, announce_list_model(value_model(el))) {
            (Ok(v), Ok(m)) => v.deep_view() == m,
            (Err(e), Err(ee)) => e == ee,
            _ => false,
        },
{
    let items = match el.get_list() {
        Ok(v) => v,
        Err(e) => {
            return Err(e);
        },
    };
    let ghost full = elems_model(items@);
    let n = items.len();
    let mut out: Vec<Vec<String>> = Vec::new();
    let mut idx: usize = 0;
    proof {
        crate::element::lemma_elems_model_index(items@);
        if tiers_model(full, 0) is Ok {
            assert(out.deep_view() + tiers_model(full, 0)->Ok_0 =~= tiers_model(full, 0)->Ok_0);
        }
    }
    while idx < n
        invariant
            idx <= n == items@.len(),
            full == elems_model(items@),
            full.len() == n,
            forall|q: int| 0 <= q < n ==> full[q] == value_model(items@[q]),
            announce_list_model(value_model(el)) == tiers_model(full, 0),
            tiers_model(full, 0) == (match tiers_model(full, idx as int) {
                Ok(rest) => Ok::<Seq<Seq<Seq<char>>>, ElementError>(out.deep_view() + rest),
                Err(e) => Err(e),
            }),
        decreases n - idx,
    {
        match &items[idx] {
            Element::List(tier) => {
                match convert_tier(tier) {
                    Ok(strs) => {
                        let ghost out0 = out.deep_view();
                        let ghost sm = strs.deep_view();
                        out.push(strs);
                        proof {
                            assert(out.deep_view() =~= out0.push(sm));
                            if tiers_model(full, idx + 1) is Ok {
                                let rest = tiers_model(full, idx + 1)->Ok_0;
                                assert(out0 + (seq![sm] + rest) =~= out0.push(sm) + rest);
                            }
                        }
                    },
                    Err(e) => {
                        return Err(e);
                    },
                }
            },
            _ => {
                return Err(ElementError::WasntList);
            },
        }
        idx = idx + 1;
    }
    proof {
        assert(out.deep_view() + Seq::<Seq<Seq<char>>>::empty() =~= out.deep_view());
    }
    Ok(out)
}

/// Projects a decoded root value to a metainfo record.  The root must be
/// a dictionary holding `announce` and `info`; each recognized key is
/// consumed exactly once, and every key left over is ignored.
/// The projection past the announce fields: creation date, the three
/// optional strings, then the info dictionary.
fn project_dated(
    announce: String,
    announce_list: Option<Vec<Vec<String>>>,
    entries: &mut Vec<(String, Element)>,
) -> (r: Result<Metainfo, MetainfoDecodingError>)
    ensures
        match (r, spec_project_dated(
            announce@,
            announce_list.deep_view(),
            entries_model(old(entries)@),
        )) {
            (Ok(m), Ok(mm)) => m@ == mm,
            (Err(e), Err(ee)) => e == ee,
            _ => false,
        },
{
    let creation_date = match dict_remove_entry(entries, &("creation date".to_owned())) {
        None => None,
        Some(el) => match el.get_integer() {
            Err(e) => {
                return Err(MetainfoDecodingError::BadlyFormatedCreationDate(e));
            },
            Ok(num) => {
                let secs: i64 = num as i64;
                if !utc_timestamp_in_range(secs) {
                    return Err(MetainfoDecodingError::CreationDateOutOfRange);
                }
                Some(secs)
            },
        },
    };
    project_strings(announce, announce_list, creation_date, entries)
}

/// The projection past the dates: comment, created-by and encoding, then
/// the info dictionary.
fn project_strings(
    announce: String,
    announce_list: Option<Vec<Vec<String>>>,
    creation_date: Option<i64>,
    entries: &mut Vec<(String, Element)>,
) -> (r: Result<Metainfo, MetainfoDecodingError>)
    ensures
        match (r, spec_project_strings(
            announce@,
            announce_list.deep_view(),
            match creation_date {
                Some(n) => Some(n as int),
                None => None,
            },
            entries_model(old(entries)@),
        )) {
            (Ok(m), Ok(mm)) => m@ == mm,
            (Err(e), Err(ee)) => e == ee,
            _ => false,
        },
{
    let comment = match dict_remove_entry(entries, &("comment".to_owned())) {
        None => None,
        Some(el) => match el.get_string() {
            Ok(st) => Some(st),
            Err(e) => {
                return Err(MetainfoDecodingError::BadlyFormatedComment(e));
            },
        },
    };
    let created_by = match dict_remove_entry(entries, &("created_by".to_owned())) {
        None => None,
        Some(el) => match el.get_string() {
            Ok(st) => Some(st),
            Err(e) => {
                return Err(MetainfoDecodingError::BadlyFormatedCreatedBy(e));
            },
        },
    };
    let encoding = match dict_remove_entry(entries, &("encoding".to_owned())) {
        None => None,
        Some(el) => match el.get_string() {
            Ok(st) => Some(st),
            Err(e) => {
                return Err(MetainfoDecodingError::BadlyFormatedEncoding(e));
            },
        },
    };
    let info = match dict_remove_entry(entries, &("info".to_owned())) {
        None => {
            return Err(MetainfoDecodingError::FileWithoutInfo);
        },
        Some(el) => match el.get_dictionary() {
            Ok(d) => d,
            Err(e) => {
                return Err(MetainfoDecodingError::InfoWasntDictionary(e));
            },
        },
    };
    Ok(Metainfo { announce, announce_list, creation_date, comment, created_by, encoding, info })
}

/// Projects a decoded root value to a metainfo record.  The root must be
/// a dictionary holding `announce` and `info`; each recognized key is
/// consumed exactly once, and every key left over is ignored.
pub fn project(root: Element) -> (r: Result<Metainfo, MetainfoDecodingError>)
    ensures
        match (r, spec_project(value_model(root))) {
            (Ok(m), Ok(mm)) => m@ == mm,
            (Err(e), Err(ee)) => e == ee,
            _ => false,
        },
{
    let mut entries = match root.get_dictionary() {
        Ok(v) => v,
        Err(e) => {
            return Err(MetainfoDecodingError::FileWasntDictionary(e));
        },
    };
    let announce = match dict_remove_entry(&mut entries, &("announce".to_owned())) {
        None => {
            return Err(MetainfoDecodingError::FileWithoutAnnounce);
        },
        Some(el) => match el.get_string() {
            Ok(st) => st,
            Err(e) => {
                return Err(MetainfoDecodingError::AnnounceWasntString(e));
            },
        },
    };
    let announce_list = match dict_remove_entry(&mut entries, &("announce-list".to_owned())) {
        None => None,
        Some(el) => match convert_announce_list(el) {
            Ok(v) => Some(v),
            Err(e) => {
                return Err(MetainfoDecodingError::BadlyFormatedAnnounceList(e));
            },
        },
    };
    project_dated(announce, announce_list, &mut entries)
}

impl<'a> TorrentDecoder<'a> {
    /// Decodes the value at the cursor and projects it to a metainfo
    /// record, or says why either step failed.
    pub fn decode_metafile(&mut self) -> (r: Result<Metainfo, MetainfoDecodingError>)
        ensures
            final(self).buffer@ == old(self).buffer@,
            match (r, spec_metafile(old(self).buffer@, old(self).index as int)) {
                (Ok(m), Ok(mm)) => m@ == mm,
                (Err(e), Err(ee)) => e == ee,
                _ => false,
            },
    {
        if self.index >= self.buffer.len() {
            return Err(MetainfoDecodingError::BadFormat(FmtError::UnexpectedEndOfBuffer));
        }
        let character = self.get_char();
        let root = match self.decode_character(character) {
            Err(e) => {
                return Err(MetainfoDecodingError::BadFormat(e));
            },
            Ok(None) => {
                return Err(MetainfoDecodingError::BadFormat(FmtError::WrongCharacter));
            },
            Ok(Some(el)) => el,
        };
        project(root)
    }
}

} // verus!
