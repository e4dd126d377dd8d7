//! The device binder and its typed attribute accessors.
//!
//! A [`Device`] binds to the one subdirectory of a device-class listing whose
//! name carries a given prefix and whose attribute files carry acceptable
//! values, and then reads and writes those files as strings, integers, or
//! sets of space-separated tokens.

use crate::sysfs::{lookup_attr, update_attr, AttrFileView, DeviceDir, DeviceDirView, DirListing};
use crate::text::{
    all_digits, digits_val, int_to_text, is_digit, parse_int_spec, split_tokens, starts_with,
    trim_spec,
};
use crate::Error;
use vstd::prelude::*;

verus! {

/// A set of acceptable raw values for one attribute.
pub type Matches = Vec<String>;

/// A match specification: required attribute names, each with its acceptable
/// values. A candidate directory matches when, for every pair, the trimmed
/// contents of its file of that name equal one of the acceptable values.
pub type AttributeMatches = Vec<(String, Matches)>;

/// A handle on at most one device-class subdirectory: unbound after creation,
/// bound by a successful [`Device::connect`].
pub struct Device {
    /// The directory this device is bound to, or `None` when unbound.
    pub binding: Option<DeviceDir>,
    /// The lazily computed device index. Only ever set while bound, and only
    /// to the index derived from the bound directory's name; every `connect`
    /// clears it.
    pub index_cache: Option<isize>,
}

/// The mathematical value of a [`Device`].
pub struct DeviceView {
    pub binding: Option<DeviceDirView>,
    pub index_cache: Option<int>,
}

impl View for Device {
    type V = DeviceView;

    open spec fn view(&self) -> DeviceView {
        DeviceView {
            binding: match self.binding {
                None => None,
                Some(d) => Some(d@),
            },
            index_cache: match self.index_cache {
                None => None,
                Some(i) => Some(i as int),
            },
        }
    }
}

/// `s` without its longest prefix of non-digit characters.
pub open spec fn strip_non_digits(s: Seq<char>) -> Seq<char>
    decreases s.len(),
{
    if s.len() > 0 && !is_digit(s[0]) {
        strip_non_digits(s.skip(1))
    } else {
        s
    }
}

/// The ordinal a directory name denotes: the value of the digits that remain
/// after stripping all leading non-digit characters. `None` when no digits
/// remain or a non-digit follows them.
pub open spec fn device_index_of(name: Seq<char>) -> Option<int> {
    let ds = strip_non_digits(name);
    if ds.len() > 0 && all_digits(ds) {
        Some(digits_val(ds))
    } else {
        None
    }
}

/// What asking a device for its index yields: its binding's ordinal, or
/// `NotConnected` when unbound, or `ParseError` when the bound name carries
/// no usable digits or the ordinal overflows the index type.
pub open spec fn spec_device_index(v: DeviceView) -> Result<int, Error> {
    match v.binding {
        None => Err(Error::NotConnected),
        Some(d) => match device_index_of(d.name) {
            Some(i) => if i <= isize::MAX as int {
                Ok(i)
            } else {
                Err(Error::ParseError)
            },
            None => Err(Error::ParseError),
        },
    }
}

impl Device {
    /// The cached index, when present, is the one the bound directory's name
    /// denotes; an unbound device caches nothing.
    pub open spec fn wf(&self) -> bool {
        match (self@.binding, self@.index_cache) {
            (_, None) => true,
            (Some(d), Some(i)) => device_index_of(d.name) == Some(i) && i <= isize::MAX as int,
            (None, Some(_)) => false,
        }
    }

    /// A fresh, unbound device.
    pub fn new() -> (r: Device)
        ensures
            r@.binding is None,
            r@.index_cache is None,
            r.wf(),
    {
        Device { binding: None, index_cache: None }
    }
}

/// Things that may or may not currently be bound to a device directory.
pub trait Connected {
    /// Whether a binding currently exists.
    spec fn connected_spec(&self) -> bool;

    /// Reports whether a binding currently exists.
    fn connected(&self) -> (r: bool)
        ensures
            r == self.connected_spec(),
    ;
}

impl Connected for Device {
    open spec fn connected_spec(&self) -> bool {
        self@.binding is Some
    }

    fn connected(&self) -> (r: bool) {
        self.binding.is_some()
    }
}

/// Things that derive an ordinal index from their current binding.
pub trait DeviceIndex {
    /// The well-formedness the index computation relies on.
    spec fn device_index_wf(&self) -> bool;

    /// What the index computation yields on the current state.
    spec fn device_index_spec(&self) -> Result<isize, Error>;

    /// The ordinal index of the bound directory.
    fn device_index(&self) -> (r: Result<isize, Error>)
        requires
            self.device_index_wf(),
        ensures
            r == self.device_index_spec(),
    ;
}

/// Stripping non-digit characters skips any prefix free of digits.
proof fn lemma_strip_skip(s: Seq<char>, i: int)
    requires
        0 <= i <= s.len(),
        forall|k: int| 0 <= k < i ==> !is_digit(s[k]),
    ensures
        strip_non_digits(s) == strip_non_digits(s.skip(i)),
    decreases i,
{
    if i == 0 {
        assert(s.skip(0) =~= s);
    } else {
        assert(!is_digit(s[0]));
        assert(forall|k: int| 0 <= k < i - 1 ==> !is_digit(#[trigger] s.skip(1)[k])) by {
            assert(forall|k: int| 0 <= k < i - 1 ==> s.skip(1)[k] == s[k + 1]);
        }
        lemma_strip_skip(s.skip(1), i - 1);
        assert(s.skip(1).skip(i - 1) =~= s.skip(i));
    }
}

/// The ordinal a directory name denotes, as [`device_index_of`] describes it;
/// `None` also when the ordinal would overflow the index type.
pub fn parse_device_index(name: &str) -> (r: Option<isize>)
    ensures
        match device_index_of(name@) {
            Some(i) => r == if i <= isize::MAX as int {
                Some(i as isize)
            } else {
                None::<isize>
            },
            None => r is None,
        },
{
    let len = name.unicode_len();
    let mut k: usize = 0;
    while k < len && !crate::text::is_digit_char(name.get_char(k))
        invariant
            k <= len,
            len == name@.len(),
            forall|j: int| 0 <= j < k ==> !is_digit(name@[j]),
        decreases len - k,
    {
        k += 1;
    }
    proof {
        lemma_strip_skip(name@, k as int);
    }
    let rest = name.substring_char(k, len);
    proof {
        assert(rest@ =~= name@.skip(k as int));
        let ds = strip_non_digits(name@);
        if k < len {
            assert(is_digit(name@[k as int]));
            assert(rest@[0] == name@[k as int]);
            assert(ds == rest@);
            // A digit opens the remainder, so no sign is read and the parse
            // is exactly the digit-string value.
            if rest@.len() > 0 && all_digits(rest@) {
                crate::text::lemma_digits_val_nonneg(ds);
                assert(parse_int_spec(rest@) == Some(digits_val(ds)));
            } else {
                assert(parse_int_spec(rest@) is None);
            }
        } else {
            assert(rest@.len() == 0);
            assert(ds.len() == 0);
            assert(parse_int_spec(rest@) is None);
            assert(device_index_of(name@) is None);
        }
    }
    crate::text::parse_isize(rest)
}

impl DeviceIndex for Device {
    open spec fn device_index_wf(&self) -> bool {
        self.wf()
    }

    open spec fn device_index_spec(&self) -> Result<isize, Error> {
        match spec_device_index(self@) {
            Ok(i) => Ok(i as isize),
            Err(e) => Err(e),
        }
    }

    fn device_index(&self) -> (r: Result<isize, Error>) {
        match &self.binding {
            None => Err(Error::NotConnected),
            Some(d) => match self.index_cache {
                Some(i) => Ok(i),
                None => match parse_device_index(d.name.as_str()) {
                    Some(i) => Ok(i),
                    None => Err(Error::ParseError),
                },
            },
        }
    }
}

impl Device {
    /// The ordinal index of the bound directory, remembered until the next
    /// `connect` so that repeated queries parse the name at most once.
    pub fn get_device_index(&mut self) -> (r: Result<isize, Error>)
        requires
            old(self).wf(),
        ensures
            final(self).wf(),
            final(self)@.binding == old(self)@.binding,
            r == old(self).device_index_spec(),
            match r {
                Ok(i) => final(self)@.index_cache == Some(i as int),
                Err(_) => final(self)@.index_cache == old(self)@.index_cache,
            },
    {
        match &self.binding {
            None => Err(Error::NotConnected),
            Some(d) => match self.index_cache {
                Some(i) => Ok(i),
                None => match parse_device_index(d.name.as_str()) {
                    Some(i) => {
                        proof {
                            crate::text::lemma_digits_val_nonneg(strip_non_digits(d@.name));
                        }
                        self.index_cache = Some(i);
                        Ok(i)
                    },
                    None => Err(Error::ParseError),
                },
            },
        }
    }
}

/// What reading an attribute as a string yields: the trimmed contents of the
/// bound directory's file of that name, or `IoError` when the device is
/// unbound or the file is absent.
pub open spec fn spec_get_attr_string(v: DeviceView, name: Seq<char>) -> Result<Seq<char>, Error> {
    match v.binding {
        None => Err(Error::IoError),
        Some(d) => match lookup_attr(d.files, name) {
            None => Err(Error::IoError),
            Some(c) => Ok(trim_spec(c)),
        },
    }
}

/// What reading an attribute as an integer yields: the parse of the trimmed
/// contents, or `ParseError` when they are not a decimal integer that fits.
pub open spec fn spec_get_attr_int(v: DeviceView, name: Seq<char>) -> Result<int, Error> {
    match spec_get_attr_string(v, name) {
        Err(e) => Err(e),
        Ok(t) => match parse_int_spec(t) {
            Some(x) => if isize::MIN as int <= x <= isize::MAX as int {
                Ok(x)
            } else {
                Err(Error::ParseError)
            },
            None => Err(Error::ParseError),
        },
    }
}

/// Whether writing an attribute succeeds: the device is bound and the file
/// exists. On success the file's contents become exactly the written text.
pub open spec fn spec_set_attr_ok(v: DeviceView, name: Seq<char>) -> bool {
    match v.binding {
        None => false,
        Some(d) => lookup_attr(d.files, name) is Some,
    }
}

/// The device state after a successful attribute write: the first file of
/// that name holds the new text; everything else is untouched.
pub open spec fn spec_after_set_attr(v: DeviceView, name: Seq<char>, value: Seq<char>) -> DeviceView
    recommends
        spec_set_attr_ok(v, name),
{
    match v.binding {
        None => v,
        Some(d) => DeviceView {
            binding: Some(DeviceDirView { name: d.name, files: update_attr(d.files, name, value) }),
            index_cache: v.index_cache,
        },
    }
}

/// Whether the text equals one of the acceptable values.
pub open spec fn value_accepted(vals: Seq<Seq<char>>, text: Seq<char>) -> bool {
    exists|k: int| 0 <= k < vals.len() && vals[k] == text
}

/// Whether one of the strings equals the given text.
fn contains_string(vals: &Vec<String>, text: &str) -> (r: bool)
    ensures
        r == value_accepted(vals.deep_view(), text@),
{
    let mut k: usize = 0;
    while k < vals.len()
        invariant
            k <= vals@.len(),
            forall|j: int| 0 <= j < k ==> vals.deep_view()[j] != text@,
        decreases vals@.len() - k,
    {
        if crate::text::str_eq(vals[k].as_str(), text) {
            assert(vals.deep_view()[k as int] == text@);
            return true;
        }
        k += 1;
    }
    false
}

impl Device {
    /// The trimmed contents of the named attribute file of the bound
    /// directory. Fails with `IoError` when the device is unbound or the
    /// directory has no file of that name.
    pub fn get_attr_string(&self, name: &str) -> (r: Result<String, Error>)
        ensures
            match (r, spec_get_attr_string(self@, name@)) {
                (Ok(s), Ok(t)) => s@ == t,
                (Err(e), Err(f)) => e == f,
                _ => false,
            },
    {
        match &self.binding {
            None => Err(Error::IoError),
            Some(d) => match crate::sysfs::find_attr(&d.files, name) {
                None => Err(Error::IoError),
                Some(j) => Ok(crate::text::trim(d.files[j].contents.as_str())),
            },
        }
    }

    /// The named attribute read as a signed decimal integer. Fails with
    /// `IoError` as string reads do, and with `ParseError` when the trimmed
    /// text is not an optional sign followed by digits, or does not fit.
    pub fn get_attr_int(&self, name: &str) -> (r: Result<isize, Error>)
        ensures
            match (r, spec_get_attr_int(self@, name@)) {
                (Ok(i), Ok(x)) => i as int == x,
                (Err(e), Err(f)) => e == f,
                _ => false,
            },
    {
        match self.get_attr_string(name) {
            Err(e) => Err(e),
            Ok(text) => match crate::text::parse_isize(text.as_str()) {
                Some(i) => Ok(i),
                None => Err(Error::ParseError),
            },
        }
    }

    /// Replaces the contents of the named attribute file of the bound
    /// directory with `value`, verbatim. Fails with `IoError` when the device
    /// is unbound or the directory has no file of that name, leaving the
    /// device untouched.
    pub fn set_attr_string(&mut self, name: &str, value: &str) -> (r: Result<(), Error>)
        requires
            old(self).wf(),
        ensures
            final(self).wf(),
            if spec_set_attr_ok(old(self)@, name@) {
                r == Ok::<(), Error>(()) && final(self)@ == spec_after_set_attr(
                    old(self)@,
                    name@,
                    value@,
                )
            } else {
                r == Err::<(), Error>(Error::IoError) && final(self)@ == old(self)@
            },
    {
        let binding = self.binding.take();
        match binding {
            None => Err(Error::IoError),
            Some(mut d) => {
                let ghost dv = d@;
                match crate::sysfs::find_attr(&d.files, name) {
                    None => {
                        self.binding = Some(d);
                        Err(Error::IoError)
                    },
                    Some(j) => {
                        let mut f = d.files.remove(j);
                        f.contents = String::from_str(value);
                        d.files.insert(j, f);
                        proof {
                            let updated = AttrFileView { name: dv.files[j as int].name, contents: value@ };
                            assert(d@.files =~= dv.files.update(j as int, updated)) by {
                                assert(forall|k: int|
                                    0 <= k < d.files@.len() ==> #[trigger] d@.files[k]
                                        == d.files@[k]@);
                            }
                            crate::sysfs::lemma_update_at_first(dv.files, name@, value@, j as int);
                        }
                        self.binding = Some(d);
                        Ok(())
                    },
                }
            },
        }
    }

    /// Writes the decimal text of `value` to the named attribute file, as
    /// [`Device::set_attr_string`] would.
    pub fn set_attr_int(&mut self, name: &str, value: isize) -> (r: Result<(), Error>)
        requires
            old(self).wf(),
        ensures
            final(self).wf(),
            if spec_set_attr_ok(old(self)@, name@) {
                r == Ok::<(), Error>(()) && final(self)@ == spec_after_set_attr(
                    old(self)@,
                    name@,
                    int_to_text(value as int),
                )
            } else {
                r == Err::<(), Error>(Error::IoError) && final(self)@ == old(self)@
            },
    {
        let text = crate::text::int_to_string(value);
        self.set_attr_string(name, text.as_str())
    }

    /// The named attribute read as a set of space-separated tokens: each
    /// token of the trimmed text appears exactly once, duplicates collapse.
    /// Splitting keeps empty tokens, so runs of spaces yield an empty token.
    pub fn get_attr_set(&self, name: &str) -> (r: Result<Vec<String>, Error>)
        ensures
            match (r, spec_get_attr_string(self@, name@)) {
                (Ok(v), Ok(t)) => {
                    &&& forall|k: int|
                        0 <= k < v.deep_view().len() ==> split_tokens(t).contains(
                            #[trigger] v.deep_view()[k],
                        )
                    &&& forall|tok: Seq<char>|
                        split_tokens(t).contains(tok) ==> v.deep_view().contains(tok)
                    &&& forall|k1: int, k2: int|
                        0 <= k1 < k2 < v.deep_view().len() ==> v.deep_view()[k1]
                            != v.deep_view()[k2]
                },
                (Err(e), Err(f)) => e == f,
                _ => false,
            },
    {
        match self.get_attr_string(name) {
            Err(e) => Err(e),
            Ok(text) => {
                let tokens = crate::text::split_spaces(text.as_str());
                let ghost toks = split_tokens(text@);
                let mut out: Vec<String> = Vec::new();
                let mut k: usize = 0;
                while k < tokens.len()
                    invariant
                        k <= tokens@.len(),
                        toks == tokens.deep_view(),
                        forall|j: int|
                            0 <= j < out.deep_view().len() ==> toks.contains(
                                #[trigger] out.deep_view()[j],
                            ),
                        forall|j: int| 0 <= j < k ==> out.deep_view().contains(#[trigger] toks[j]),
                        forall|j1: int, j2: int|
                            0 <= j1 < j2 < out.deep_view().len() ==> out.deep_view()[j1]
                                != out.deep_view()[j2],
                    decreases tokens@.len() - k,
                {
                    let ghost pre = out.deep_view();
                    if !contains_string(&out, tokens[k].as_str()) {
                        out.push(tokens[k].clone());
                        proof {
                            assert(out.deep_view() =~= pre.push(toks[k as int]));
                            assert(toks.contains(toks[k as int]));
                            assert(forall|j: int|
                                0 <= j < pre.len() ==> #[trigger] out.deep_view()[j] == pre[j]);
                            assert forall|j: int| 0 <= j < k + 1 implies out.deep_view().contains(
                                #[trigger] toks[j],
                            ) by {
                                if j < k {
                                    let w = choose|w: int|
                                        0 <= w < pre.len() && pre[w] == toks[j];
                                    assert(out.deep_view()[w] == toks[j]);
                                } else {
                                    assert(out.deep_view()[pre.len() as int] == toks[k as int]);
                                }
                            }
                        }
                    } else {
                        proof {
                            let w = choose|w: int|
                                0 <= w < pre.len() && pre[w] == toks[k as int];
                            assert(pre[w] == toks[k as int]);
                            assert(out.deep_view().contains(toks[k as int]));
                        }
                    }
                    k += 1;
                }
                proof {
                    assert(forall|tok: Seq<char>| toks.contains(tok) ==> out.deep_view().contains(
                        tok,
                    )) by {
                        assert(forall|j: int|
                            0 <= j < toks.len() ==> out.deep_view().contains(#[trigger] toks[j]));
                    }
                }
                Ok(out)
            },
        }
    }
}

/// How one candidate directory fares against a match specification.
pub enum MatchOutcome {
    /// Every required attribute is present with an acceptable value.
    Match,
    /// Every required attribute read so far was present, but one carried a
    /// value outside its acceptable set.
    Mismatch,
    /// A required attribute file is absent from the candidate.
    MissingAttr,
}

/// Evaluates the pairs of a match specification against one candidate, in
/// order: the first absent attribute decides `MissingAttr`, the first
/// unacceptable value decides `Mismatch`.
pub open spec fn match_pairs(
    d: DeviceDirView,
    pairs: Seq<(Seq<char>, Seq<Seq<char>>)>,
) -> MatchOutcome
    decreases pairs.len(),
{
    if pairs.len() == 0 {
        MatchOutcome::Match
    } else {
        match lookup_attr(d.files, pairs[0].0) {
            None => MatchOutcome::MissingAttr,
            Some(c) => if value_accepted(pairs[0].1, trim_spec(c)) {
                match_pairs(d, pairs.skip(1))
            } else {
                MatchOutcome::Mismatch
            },
        }
    }
}

/// How a scan over a device-class listing ends.
pub enum ScanOutcome {
    /// The first candidate that carries the prefix and fully matches.
    Bound(DeviceDirView),
    /// No candidate carries the prefix and fully matches.
    NoneMatched,
    /// A candidate carrying the prefix lacks a required attribute file; the
    /// read failure propagates instead of being scored as a mismatch.
    ReadFailed,
}

/// Scans the entries in order, skipping those without the name prefix, and
/// binds to the first full match. Entries after the first full match are not
/// examined: callers owe a specification precise enough to match at most one
/// device, and under that contract the listing order is immaterial.
pub open spec fn scan_entries(
    entries: Seq<DeviceDirView>,
    pattern: Seq<char>,
    pairs: Seq<(Seq<char>, Seq<Seq<char>>)>,
) -> ScanOutcome
    decreases entries.len(),
{
    if entries.len() == 0 {
        ScanOutcome::NoneMatched
    } else if starts_with(entries[0].name, pattern) {
        match match_pairs(entries[0], pairs) {
            MatchOutcome::Match => ScanOutcome::Bound(entries[0]),
            MatchOutcome::MissingAttr => ScanOutcome::ReadFailed,
            MatchOutcome::Mismatch => scan_entries(entries.skip(1), pattern, pairs),
        }
    } else {
        scan_entries(entries.skip(1), pattern, pairs)
    }
}

/// The binding a connect attempt leaves behind: the matched directory, or
/// `None` when the root was unlistable, nothing matched, or a read failed.
pub open spec fn connect_binding(
    listing: Option<Seq<DeviceDirView>>,
    pattern: Seq<char>,
    pairs: Seq<(Seq<char>, Seq<Seq<char>>)>,
) -> Option<DeviceDirView> {
    match listing {
        None => None,
        Some(es) => match scan_entries(es, pattern, pairs) {
            ScanOutcome::Bound(d) => Some(d),
            _ => None,
        },
    }
}

/// What a connect attempt returns: `NoMatch` both when the root was
/// unlistable and when no candidate matched, `IoError` when a candidate
/// carrying the prefix lacks a required attribute file.
pub open spec fn connect_result(
    listing: Option<Seq<DeviceDirView>>,
    pattern: Seq<char>,
    pairs: Seq<(Seq<char>, Seq<Seq<char>>)>,
) -> Result<(), Error> {
    match listing {
        None => Err(Error::NoMatch),
        Some(es) => match scan_entries(es, pattern, pairs) {
            ScanOutcome::Bound(_) => Ok(()),
            ScanOutcome::NoneMatched => Err(Error::NoMatch),
            ScanOutcome::ReadFailed => Err(Error::IoError),
        },
    }
}

/// Evaluates a match specification against one candidate directory, as
/// [`match_pairs`] describes it.
fn eval_pairs(d: &DeviceDir, match_spec: &AttributeMatches) -> (r: MatchOutcome)
    ensures
        r == match_pairs(d@, match_spec.deep_view()),
{
    let ghost pairs = match_spec.deep_view();
    proof {
        assert(pairs.skip(0) =~= pairs);
    }
    let mut j: usize = 0;
    while j < match_spec.len()
        invariant
            j <= pairs.len(),
            pairs == match_spec.deep_view(),
            match_pairs(d@, pairs) == match_pairs(d@, pairs.skip(j as int)),
        decreases pairs.len() - j,
    {
        proof {
            assert(pairs.skip(j as int)[0] == pairs[j as int]);
            assert(pairs.skip(j as int).skip(1) =~= pairs.skip(j + 1));
            assert(pairs[j as int].0 == match_spec@[j as int].0@);
            assert(pairs[j as int].1 == match_spec@[j as int].1.deep_view());
        }
        match crate::sysfs::find_attr(&d.files, match_spec[j].0.as_str()) {
            None => {
                return MatchOutcome::MissingAttr;
            },
            Some(fi) => {
                let text = crate::text::trim(d.files[fi].contents.as_str());
                if !contains_string(&match_spec[j].1, text.as_str()) {
                    return MatchOutcome::Mismatch;
                }
            },
        }
        j += 1;
    }
    proof {
        assert(pairs.skip(pairs.len() as int) =~= Seq::<(Seq<char>, Seq<Seq<char>>)>::empty());
    }
    MatchOutcome::Match
}

impl Device {
    /// Scans the listing of a device-class root for subdirectories whose name
    /// begins with `pattern`, and binds to the first of them whose attribute
    /// files satisfy every pair of `match_spec`. Any previous binding and any
    /// cached index are discarded first, whatever the outcome.
    ///
    /// Returns `NoMatch` — leaving the device unbound — when the root could
    /// not be listed (`dir.entries` is `None`) or no candidate matches, and
    /// `IoError` when a candidate carrying the prefix lacks an attribute file
    /// named by the specification. Callers owe a specification precise enough
    /// to match at most one device; the listing order then carries no weight.
    pub fn connect(
        &mut self,
        dir: &DirListing,
        pattern: &str,
        match_spec: &AttributeMatches,
    ) -> (r: Result<(), Error>)
        ensures
            final(self).wf(),
            final(self)@.index_cache is None,
            final(self)@.binding == connect_binding(dir@, pattern@, match_spec.deep_view()),
            r == connect_result(dir@, pattern@, match_spec.deep_view()),
    {
        self.index_cache = None;
        self.binding = None;
        let ghost pairs = match_spec.deep_view();
        match &dir.entries {
            None => Err(Error::NoMatch),
            Some(es) => {
                let ghost evs = match dir@ {
                    Some(l) => l,
                    None => Seq::<DeviceDirView>::empty(),
                };
                proof {
                    assert(dir@ == Some(evs));
                    assert(evs.skip(0) =~= evs);
                }
                let mut i: usize = 0;
                while i < es.len()
                    invariant
                        i <= evs.len(),
                        dir@ == Some(evs),
                        evs.len() == es@.len(),
                        forall|k: int| 0 <= k < evs.len() ==> evs[k] == #[trigger] es@[k]@,
                        pairs == match_spec.deep_view(),
                        scan_entries(evs, pattern@, pairs) == scan_entries(
                            evs.skip(i as int),
                            pattern@,
                            pairs,
                        ),
                        self@.binding is None,
                        self@.index_cache is None,
                    decreases evs.len() - i,
                {
                    proof {
                        assert(evs[i as int] == es@[i as int]@);
                        assert(evs.skip(i as int)[0] == evs[i as int]);
                        assert(evs.skip(i as int).skip(1) =~= evs.skip(i + 1));
                    }
                    if crate::text::str_starts_with(es[i].name.as_str(), pattern) {
                        match eval_pairs(&es[i], match_spec) {
                            MatchOutcome::Match => {
                                self.binding = Some(es[i].clone());
                                return Ok(());
                            },
                            MatchOutcome::MissingAttr => {
                                return Err(Error::IoError);
                            },
                            MatchOutcome::Mismatch => {},
                        }
                    }
                    i += 1;
                }
                proof {
                    assert(evs.skip(evs.len() as int) =~= Seq::<DeviceDirView>::empty());
                }
                Err(Error::NoMatch)
            },
        }
    }
}

/// A scan only ever binds a listed directory whose name carries the prefix
/// and whose attribute files satisfy the whole specification — whatever the
/// attribute contents of the other directories.
pub proof fn lemma_bound_candidate_matches(
    entries: Seq<DeviceDirView>,
    pattern: Seq<char>,
    pairs: Seq<(Seq<char>, Seq<Seq<char>>)>,
)
    ensures
        scan_entries(entries, pattern, pairs) matches ScanOutcome::Bound(d) ==> entries.contains(d)
            && starts_with(d.name, pattern) && match_pairs(d, pairs) == MatchOutcome::Match,
    decreases entries.len(),
{
    if entries.len() > 0 {
        lemma_bound_candidate_matches(entries.skip(1), pattern, pairs);
        match scan_entries(entries, pattern, pairs) {
            ScanOutcome::Bound(d) => {
                if !(starts_with(entries[0].name, pattern) && match_pairs(entries[0], pairs)
                    == MatchOutcome::Match) {
                    assert(entries.skip(1).contains(d));
                    let w = choose|w: int|
                        0 <= w < entries.skip(1).len() && entries.skip(1)[w] == d;
                    assert(entries[w + 1] == d);
                }
            },
            _ => {},
        }
    }
}

/// A specification pair that a candidate cannot satisfy — its attribute file
/// absent, or its trimmed contents outside the acceptable values — keeps the
/// candidate from matching.
pub proof fn lemma_unsatisfied_pair_never_matches(
    d: DeviceDirView,
    pairs: Seq<(Seq<char>, Seq<Seq<char>>)>,
    k: int,
)
    requires
        0 <= k < pairs.len(),
        match lookup_attr(d.files, pairs[k].0) {
            None => true,
            Some(c) => !value_accepted(pairs[k].1, trim_spec(c)),
        },
    ensures
        match_pairs(d, pairs) != MatchOutcome::Match,
    decreases k,
{
    match lookup_attr(d.files, pairs[0].0) {
        None => {},
        Some(c) => {
            if value_accepted(pairs[0].1, trim_spec(c)) {
                assert(k != 0);
                assert(pairs.skip(1)[k - 1] == pairs[k]);
                lemma_unsatisfied_pair_never_matches(d, pairs.skip(1), k - 1);
            }
        },
    }
}

/// A candidate with an unsatisfiable pair is never the one bound; when it is
/// the only directory listed, the attempt leaves the device unbound.
pub proof fn lemma_unsatisfied_candidate_never_bound(
    entries: Seq<DeviceDirView>,
    pattern: Seq<char>,
    pairs: Seq<(Seq<char>, Seq<Seq<char>>)>,
    d: DeviceDirView,
    k: int,
)
    requires
        0 <= k < pairs.len(),
        match lookup_attr(d.files, pairs[k].0) {
            None => true,
            Some(c) => !value_accepted(pairs[k].1, trim_spec(c)),
        },
    ensures
        scan_entries(entries, pattern, pairs) != ScanOutcome::Bound(d),
        entries =~= seq![d] ==> connect_binding(Some(entries), pattern, pairs) is None,
{
    lemma_bound_candidate_matches(entries, pattern, pairs);
    lemma_unsatisfied_pair_never_matches(d, pairs, k);
}

/// A connect attempt determines the device state from its own listing,
/// pattern and specification alone — the contract of [`Device::connect`]
/// fixes the state as [`connect_binding`] with a cleared index cache, with no
/// mention of the state before the call. In particular, after an attempt
/// whose specification cannot match, a device-index query fails with
/// `NotConnected`: no earlier binding shows through.
pub proof fn lemma_failed_rebind_not_connected(
    listing: Option<Seq<DeviceDirView>>,
    pattern: Seq<char>,
    pairs: Seq<(Seq<char>, Seq<Seq<char>>)>,
)
    ensures
        ({
            let post = DeviceView {
                binding: connect_binding(listing, pattern, pairs),
                index_cache: None,
            };
            connect_binding(listing, pattern, pairs) is None ==> spec_device_index(post) == Err::<
                int,
                Error,
            >(Error::NotConnected)
        }),
{
}

/// Writing an integer attribute and reading it back yields the value
/// written: the decimal text survives the trim and parses to the integer it
/// was formatted from.
pub proof fn lemma_set_get_int_round_trip(v: DeviceView, name: Seq<char>, val: int)
    requires
        isize::MIN as int <= val <= isize::MAX as int,
        spec_set_attr_ok(v, name),
    ensures
        spec_get_attr_int(spec_after_set_attr(v, name, int_to_text(val)), name) == Ok::<int, Error>(
            val,
        ),
{
    match v.binding {
        None => {},
        Some(d) => {
            crate::sysfs::lemma_lookup_after_update(d.files, name, int_to_text(val), name);
            crate::text::lemma_int_text_round_trip(val);
        },
    }
}

} // verus!
