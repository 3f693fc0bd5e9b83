//! CAN messages and signals of the message database, and how they are read from the
//! YAML description of one message.
use vstd::prelude::*;

use crate::text::{
    chars_of, ends_with, ends_with_spec, hex_digits, i64_hex_text, i64_text, int_text,
    lemma_decimal_digits_len, lemma_parse_int_text, pad_left, pow10, pad_left_chars, parse_i64, parse_i64_spec, str_is,
    string_from_chars, trim_end, trim_end_spec, twos_complement,
};
use crate::yaml::{documents_view, load_yaml_documents, yaml_documents, YamlValue};

verus! {

// ---------------------------------------------------------------------------
// Types and their models
// ---------------------------------------------------------------------------

/// A text in up to three languages.
#[derive(Debug, Clone, PartialEq)]
pub struct Translation {
    pub en: Option<String>,
    pub fr: Option<String>,
    pub de: Option<String>,
}

/// Model of a `Translation`.
pub struct TranslationView {
    pub en: Option<Seq<char>>,
    pub fr: Option<Seq<char>>,
    pub de: Option<Seq<char>>,
}

impl DeepView for Translation {
    type V = TranslationView;

    open spec fn deep_view(&self) -> TranslationView {
        TranslationView {
            en: self.en.deep_view(),
            fr: self.fr.deep_view(),
            de: self.de.deep_view(),
        }
    }
}

impl View for Translation {
    type V = TranslationView;

    open spec fn view(&self) -> TranslationView {
        self.deep_view()
    }
}

impl Default for Translation {
    fn default() -> (t: Translation)
        ensures
            t@ == empty_translation(),
    {
        Translation { en: None, fr: None, de: None }
    }
}

/// The translation with no text in any language.
pub open spec fn empty_translation() -> TranslationView {
    TranslationView { en: None, fr: None, de: None }
}

/// A numeric signal parameter as the YAML file writes it: a float kept as its text, or an
/// integer. The float's value is not taken here: a text that YAML reads as a float but that
/// `f64`'s parser refuses (such as `.inf`) has no value once converted.
#[derive(Debug, Clone, PartialEq)]
pub enum SignalNumber {
    Real(String),
    Integer(i64),
}

/// Model of a `SignalNumber`.
pub enum SignalNumberView {
    Real(Seq<char>),
    Integer(i64),
}

impl DeepView for SignalNumber {
    type V = SignalNumberView;

    open spec fn deep_view(&self) -> SignalNumberView {
        match self {
            SignalNumber::Real(s) => SignalNumberView::Real(s@),
            SignalNumber::Integer(i) => SignalNumberView::Integer(*i),
        }
    }
}

/// A signal of a CAN message.
#[derive(Debug, Clone, PartialEq)]
pub struct Signal {
    pub alt_names: Option<Vec<String>>,
    pub bits: Option<String>,
    pub data_type: Option<String>,
    pub signed: Option<bool>,
    pub factor: Option<SignalNumber>,
    pub offset: Option<SignalNumber>,
    pub min: Option<SignalNumber>,
    pub max: Option<SignalNumber>,
    pub units: Option<String>,
    pub comment: Option<Translation>,
    pub values: Vec<(i64, Option<Translation>)>,
    pub unused: Option<bool>,
}

/// Model of a `Signal`.
pub struct SignalView {
    pub alt_names: Option<Seq<Seq<char>>>,
    pub bits: Option<Seq<char>>,
    pub data_type: Option<Seq<char>>,
    pub signed: Option<bool>,
    pub factor: Option<SignalNumberView>,
    pub offset: Option<SignalNumberView>,
    pub min: Option<SignalNumberView>,
    pub max: Option<SignalNumberView>,
    pub units: Option<Seq<char>>,
    pub comment: Option<TranslationView>,
    pub values: Seq<(i64, Option<TranslationView>)>,
    pub unused: Option<bool>,
}

impl DeepView for Signal {
    type V = SignalView;

    open spec fn deep_view(&self) -> SignalView {
        SignalView {
            alt_names: self.alt_names.deep_view(),
            bits: self.bits.deep_view(),
            data_type: self.data_type.deep_view(),
            signed: self.signed,
            factor: self.factor.deep_view(),
            offset: self.offset.deep_view(),
            min: self.min.deep_view(),
            max: self.max.deep_view(),
            units: self.units.deep_view(),
            comment: self.comment.deep_view(),
            values: self.values.deep_view(),
            unused: self.unused,
        }
    }
}

impl View for Signal {
    type V = SignalView;

    open spec fn view(&self) -> SignalView {
        self.deep_view()
    }
}

/// The kind of bus a message travels on.
#[derive(Debug, Clone, Copy, PartialEq, Eq, Structural)]
pub enum BusType {
    CAN,
    VAN,
    Kline,
    Error,
    NA,
}

impl DeepView for BusType {
    type V = BusType;

    open spec fn deep_view(&self) -> BusType {
        *self
    }
}

impl Default for BusType {
    fn default() -> (b: BusType)
        ensures
            b == BusType::NA,
    {
        BusType::NA
    }
}

/// How often a message is sent.
#[derive(Debug, Clone, Copy, PartialEq, Eq, Structural)]
pub enum Periodicity {
    Ms(i64),
    Trigger,
    TriggerOrMs(i64),
    Error,
    NA,
}

impl DeepView for Periodicity {
    type V = Periodicity;

    open spec fn deep_view(&self) -> Periodicity {
        *self
    }
}

impl Default for Periodicity {
    fn default() -> (p: Periodicity)
        ensures
            p == Periodicity::NA,
    {
        Periodicity::NA
    }
}

/// A CAN message of the database.
#[derive(Debug, Clone, PartialEq)]
pub struct CanMessage {
    pub id: Option<String>,
    pub name: Option<String>,
    pub alt_names: Option<Vec<String>>,
    pub length: Option<i64>,
    pub comment: Option<Translation>,
    pub bus_type: BusType,
    pub periodicity: Periodicity,
    pub senders: Vec<String>,
    pub receivers: Vec<String>,
    pub signals: Vec<(String, Signal)>,
}

/// Model of a `CanMessage`.
pub struct CanMessageView {
    pub id: Option<Seq<char>>,
    pub name: Option<Seq<char>>,
    pub alt_names: Option<Seq<Seq<char>>>,
    pub length: Option<i64>,
    pub comment: Option<TranslationView>,
    pub bus_type: BusType,
    pub periodicity: Periodicity,
    pub senders: Seq<Seq<char>>,
    pub receivers: Seq<Seq<char>>,
    pub signals: Seq<(Seq<char>, SignalView)>,
}

impl DeepView for CanMessage {
    type V = CanMessageView;

    open spec fn deep_view(&self) -> CanMessageView {
        CanMessageView {
            id: self.id.deep_view(),
            name: self.name.deep_view(),
            alt_names: self.alt_names.deep_view(),
            length: self.length,
            comment: self.comment.deep_view(),
            bus_type: self.bus_type,
            periodicity: self.periodicity,
            senders: self.senders.deep_view(),
            receivers: self.receivers.deep_view(),
            signals: self.signals.deep_view(),
        }
    }
}

impl View for CanMessage {
    type V = CanMessageView;

    open spec fn view(&self) -> CanMessageView {
        self.deep_view()
    }
}

// ---------------------------------------------------------------------------
// What the YAML description means
// ---------------------------------------------------------------------------

/// The texts of the string items of a YAML sequence, in order; other items are skipped.
pub open spec fn string_items(items: Seq<YamlValue>) -> Seq<Seq<char>>
    decreases items.len(),
{
    if items.len() == 0 {
        Seq::empty()
    } else {
        let rest = string_items(items.drop_last());
        match items.last() {
            YamlValue::String(s) => rest.push(s@),
            _ => rest,
        }
    }
}

/// One mapping entry of a translation: a string key `en`, `fr` or `de` with a string
/// value sets that language; anything else is ignored.
pub open spec fn translation_entry(t: TranslationView, key: YamlValue, value: YamlValue) -> TranslationView {
    match (key, value) {
        (YamlValue::String(k), YamlValue::String(v)) => {
            if k@ == "en"@ {
                TranslationView { en: Some(v@), ..t }
            } else if k@ == "fr"@ {
                TranslationView { fr: Some(v@), ..t }
            } else if k@ == "de"@ {
                TranslationView { de: Some(v@), ..t }
            } else {
                t
            }
        },
        _ => t,
    }
}

/// The translation that the mapping entries give, applied in order to the empty translation.
pub open spec fn translation_entries(entries: Seq<(YamlValue, YamlValue)>) -> TranslationView
    decreases entries.len(),
{
    if entries.len() == 0 {
        empty_translation()
    } else {
        translation_entry(translation_entries(entries.drop_last()), entries.last().0, entries.last().1)
    }
}

/// The translation a YAML node describes: only a mapping describes one.
pub open spec fn translation_of(y: YamlValue) -> Option<TranslationView> {
    match y {
        YamlValue::Hash(entries) => Some(translation_entries(entries@)),
        _ => None,
    }
}

/// The number a YAML node gives a numeric signal parameter: floats and integers, else none.
pub open spec fn number_of(y: YamlValue) -> Option<SignalNumberView> {
    match y {
        YamlValue::Real(s) => Some(SignalNumberView::Real(s@)),
        YamlValue::Integer(i) => Some(SignalNumberView::Integer(i)),
        _ => None,
    }
}

/// The value descriptions of a signal's `values` mapping: each integer key with the
/// translation its value describes, in order; entries with other keys are skipped.
pub open spec fn value_items(entries: Seq<(YamlValue, YamlValue)>) -> Seq<(i64, Option<TranslationView>)>
    decreases entries.len(),
{
    if entries.len() == 0 {
        Seq::empty()
    } else {
        let rest = value_items(entries.drop_last());
        match entries.last().0 {
            YamlValue::Integer(n) => rest.push((n, translation_of(entries.last().1))),
            _ => rest,
        }
    }
}

/// A signal with no parameter set.
pub open spec fn empty_signal() -> SignalView {
    SignalView {
        alt_names: None,
        bits: None,
        data_type: None,
        signed: None,
        factor: None,
        offset: None,
        min: None,
        max: None,
        units: None,
        comment: None,
        values: Seq::empty(),
        unused: None,
    }
}

/// One mapping entry of a signal description.
pub open spec fn signal_entry(s: SignalView, key: YamlValue, value: YamlValue) -> SignalView {
    match key {
        YamlValue::String(k) => {
            let k = k@;
            if k == "alt_names"@ {
                match value {
                    YamlValue::Array(items) => {
                        let names = string_items(items@);
                        if names.len() > 0 {
                            SignalView { alt_names: Some(names), ..s }
                        } else {
                            s
                        }
                    },
                    _ => s,
                }
            } else if k == "bits"@ {
                match value {
                    YamlValue::String(v) => SignalView { bits: Some(v@), ..s },
                    _ => s,
                }
            } else if k == "type"@ {
                match value {
                    YamlValue::String(v) => SignalView { data_type: Some(v@), ..s },
                    _ => s,
                }
            } else if k == "signed"@ {
                match value {
                    YamlValue::Boolean(b) => SignalView { signed: Some(b), ..s },
                    _ => s,
                }
            } else if k == "factor"@ {
                SignalView { factor: number_of(value), ..s }
            } else if k == "offset"@ {
                SignalView { offset: number_of(value), ..s }
            } else if k == "min"@ {
                SignalView { min: number_of(value), ..s }
            } else if k == "max"@ {
                SignalView { max: number_of(value), ..s }
            } else if k == "units"@ {
                match value {
                    YamlValue::String(v) => SignalView { units: Some(v@), ..s },
                    _ => s,
                }
            } else if k == "comment"@ {
                SignalView { comment: translation_of(value), ..s }
            } else if k == "values"@ {
                match value {
                    YamlValue::Hash(entries) => SignalView { values: s.values + value_items(entries@), ..s },
                    _ => s,
                }
            } else if k == "unused"@ {
                match value {
                    YamlValue::Boolean(b) => SignalView { unused: Some(b), ..s },
                    _ => s,
                }
            } else {
                s
            }
        },
        _ => s,
    }
}

/// The signal that the mapping entries give, applied in order to the empty signal.
pub open spec fn signal_entries(entries: Seq<(YamlValue, YamlValue)>) -> SignalView
    decreases entries.len(),
{
    if entries.len() == 0 {
        empty_signal()
    } else {
        signal_entry(signal_entries(entries.drop_last()), entries.last().0, entries.last().1)
    }
}

/// The signal a YAML node describes; a node that is not a mapping describes the empty signal.
pub open spec fn signal_of(y: YamlValue) -> SignalView {
    match y {
        YamlValue::Hash(entries) => signal_entries(entries@),
        _ => empty_signal(),
    }
}

/// The signals of a message's `signals` mapping: each string key with the signal its value
/// describes, in order; entries with other keys are skipped.
pub open spec fn named_signals(entries: Seq<(YamlValue, YamlValue)>) -> Seq<(Seq<char>, SignalView)>
    decreases entries.len(),
{
    if entries.len() == 0 {
        Seq::empty()
    } else {
        let rest = named_signals(entries.drop_last());
        match entries.last().0 {
            YamlValue::String(name) => rest.push((name@, signal_of(entries.last().1))),
            _ => rest,
        }
    }
}

/// The identifier a YAML node gives a message: a string as it is, an integer in upper-case
/// hexadecimal after `0x` (as `format!("0x{:X}", n)` writes it), anything else none.
pub open spec fn id_of(y: YamlValue) -> Option<Seq<char>> {
    match y {
        YamlValue::String(s) => Some(s@),
        YamlValue::Integer(n) => Some(seq!['0', 'x'] + hex_digits(twos_complement(n))),
        _ => None,
    }
}

/// The digits of a textual periodicity written in milliseconds (`<n> ms` or `<n>ms`, with
/// any trailing repetitions of the unit removed), or none for other texts.
pub open spec fn periodicity_ms_text(t: Seq<char>) -> Option<Seq<char>> {
    if t == "trigger"@ {
        None
    } else if ends_with_spec(t, " ms"@) {
        Some(trim_end_spec(t, " ms"@))
    } else if ends_with_spec(t, "ms"@) {
        Some(trim_end_spec(t, "ms"@))
    } else {
        None
    }
}

/// A textual periodicity can be read: when it is written in milliseconds, the number is a
/// decimal `i64`.
pub open spec fn periodicity_text_ok(t: Seq<char>) -> bool {
    periodicity_ms_text(t) matches Some(n) ==> parse_i64_spec(n) is Some
}

/// The periodicity a text gives: `trigger`, a number of milliseconds, or an error.
pub open spec fn periodicity_of_text(t: Seq<char>) -> Periodicity {
    if t == "trigger"@ {
        Periodicity::Trigger
    } else {
        match periodicity_ms_text(t) {
            Some(n) => Periodicity::Ms(parse_i64_spec(n).unwrap()),
            None => Periodicity::Error,
        }
    }
}

/// A message with nothing set.
pub open spec fn empty_message() -> CanMessageView {
    CanMessageView {
        id: None,
        name: None,
        alt_names: None,
        length: None,
        comment: None,
        bus_type: BusType::NA,
        periodicity: Periodicity::NA,
        senders: Seq::empty(),
        receivers: Seq::empty(),
        signals: Seq::empty(),
    }
}

/// One mapping entry of a message description.
pub open spec fn message_entry(m: CanMessageView, key: YamlValue, value: YamlValue) -> CanMessageView {
    match key {
        YamlValue::String(k) => {
            let k = k@;
            if k == "id"@ {
                CanMessageView { id: id_of(value), ..m }
            } else if k == "name"@ {
                match value {
                    YamlValue::String(v) => CanMessageView { name: Some(v@), ..m },
                    _ => m,
                }
            } else if k == "alt_names"@ {
                match value {
                    YamlValue::Array(items) => {
                        let names = string_items(items@);
                        if names.len() > 0 {
                            CanMessageView { alt_names: Some(names), ..m }
                        } else {
                            m
                        }
                    },
                    _ => m,
                }
            } else if k == "length"@ {
                match value {
                    YamlValue::Integer(n) => CanMessageView { length: Some(n), ..m },
                    _ => m,
                }
            } else if k == "comment"@ {
                CanMessageView { comment: translation_of(value), ..m }
            } else if k == "type"@ {
                match value {
                    YamlValue::String(v) => CanMessageView {
                        bus_type: if v@ == "can"@ { BusType::CAN } else { BusType::Error },
                        ..m
                    },
                    _ => m,
                }
            } else if k == "periodicity"@ {
                match value {
                    YamlValue::Integer(n) => CanMessageView { periodicity: Periodicity::Ms(n), ..m },
                    YamlValue::String(t) => CanMessageView { periodicity: periodicity_of_text(t@), ..m },
                    _ => m,
                }
            } else if k == "senders"@ {
                match value {
                    YamlValue::Array(items) => CanMessageView { senders: m.senders + string_items(items@), ..m },
                    _ => m,
                }
            } else if k == "receivers"@ {
                match value {
                    YamlValue::Array(items) => CanMessageView { receivers: m.receivers + string_items(items@), ..m },
                    _ => m,
                }
            } else if k == "signals"@ {
                match value {
                    YamlValue::Hash(entries) => CanMessageView { signals: m.signals + named_signals(entries@), ..m },
                    _ => m,
                }
            } else {
                m
            }
        },
        _ => m,
    }
}

/// A mapping entry of a message description can be read: a textual `periodicity` is
/// readable.
pub open spec fn message_entry_ok(key: YamlValue, value: YamlValue) -> bool {
    match (key, value) {
        (YamlValue::String(k), YamlValue::String(t)) => k@ == "periodicity"@ ==> periodicity_text_ok(t@),
        _ => true,
    }
}

/// The message that the mapping entries give, applied in order to the empty message.
pub open spec fn message_entries(entries: Seq<(YamlValue, YamlValue)>) -> CanMessageView
    decreases entries.len(),
{
    if entries.len() == 0 {
        empty_message()
    } else {
        message_entry(message_entries(entries.drop_last()), entries.last().0, entries.last().1)
    }
}

/// A message description can be read: each of its entries can.
pub open spec fn message_yaml_ok(root: YamlValue) -> bool {
    match root {
        YamlValue::Hash(entries) => forall|i: int|
            0 <= i < entries@.len() ==> message_entry_ok(#[trigger] entries@[i].0, entries@[i].1),
        _ => true,
    }
}

/// The message a YAML document describes; a document that is not a mapping describes the
/// empty message.
pub open spec fn message_of(root: YamlValue) -> CanMessageView {
    match root {
        YamlValue::Hash(entries) => message_entries(entries@),
        _ => empty_message(),
    }
}

/// What reading a message from loaded documents gives: the first document's message, or the
/// error text when the text was no YAML.
pub open spec fn message_from_documents(docs: Option<Seq<YamlValue>>) -> Result<CanMessageView, Seq<char>> {
    match docs {
        Some(d) => Ok(message_of(d[0])),
        None => Err("Can't parse YAML tree."@),
    }
}

/// Loaded documents can be read as a message: the text was no YAML, or its first document
/// exists and can be read.
pub open spec fn documents_ok(docs: Option<Seq<YamlValue>>) -> bool {
    docs matches Some(d) ==> d.len() > 0 && message_yaml_ok(d[0])
}

/// The model of a message result.
pub open spec fn message_result_view(r: Result<CanMessage, String>) -> Result<CanMessageView, Seq<char>> {
    match r {
        Ok(m) => Ok(m@),
        Err(e) => Err(e@),
    }
}

// ---------------------------------------------------------------------------
// Reading from YAML
// ---------------------------------------------------------------------------

/// The texts of the string items of a YAML sequence, in order.
fn collect_strings(items: &Vec<YamlValue>) -> (r: Vec<String>)
    ensures
        r.deep_view() == string_items(items@),
{
    let mut r: Vec<String> = Vec::new();
    let mut i: usize = 0;
    while i < items.len()
        invariant
            i <= items.len(),
            r.deep_view() == string_items(items@.take(i as int)),
        decreases items.len() - i,
    {
        assert(items@.take(i + 1).drop_last() =~= items@.take(i as int));
        if let YamlValue::String(s) = &items[i] {
            r.push(s.clone());
        }
        i = i + 1;
        assert(r.deep_view() =~= string_items(items@.take(i as int)));
    }
    assert(items@.take(items.len() as int) =~= items@);
    r
}

/// Appends the texts of the string items of a YAML sequence to `out`.
fn append_strings(out: &mut Vec<String>, items: &Vec<YamlValue>)
    ensures
        final(out).deep_view() == old(out).deep_view() + string_items(items@),
{
    let mut more = collect_strings(items);
    let ghost before = out.deep_view();
    out.append(&mut more);
    assert(out.deep_view() =~= before + string_items(items@));
}

impl Translation {
    /// Applies one mapping entry of a translation description.
    fn apply_entry(&mut self, key: &YamlValue, value: &YamlValue)
        ensures
            final(self)@ == translation_entry(old(self)@, *key, *value),
    {
        if let (YamlValue::String(k), YamlValue::String(v)) = (key, value) {
            if str_is(k.as_str(), "en") {
                self.en = Some(v.clone());
            } else if str_is(k.as_str(), "fr") {
                self.fr = Some(v.clone());
            } else if str_is(k.as_str(), "de") {
                self.de = Some(v.clone());
            }
        }
    }

    /// The translation a YAML node describes: a mapping sets the languages `en`, `fr` and
    /// `de` from its string entries, in order; any other node describes none.
    pub fn from_yaml(yaml: &YamlValue) -> (r: Option<Translation>)
        ensures
            r.deep_view() == translation_of(*yaml),
    {
        if let YamlValue::Hash(entries) = yaml {
            let mut t = Translation { en: None, fr: None, de: None };
            let mut i: usize = 0;
            while i < entries.len()
                invariant
                    i <= entries.len(),
                    t@ == translation_entries(entries@.take(i as int)),
                decreases entries.len() - i,
            {
                assert(entries@.take(i + 1).drop_last() =~= entries@.take(i as int));
                t.apply_entry(&entries[i].0, &entries[i].1);
                i = i + 1;
            }
            assert(entries@.take(entries.len() as int) =~= entries@);
            Some(t)
        } else {
            None
        }
    }

    /// The text in `language`: `fr` and `de` select those languages, anything else English;
    /// an absent text reads as the empty string.
    pub fn get(&self, language: &str) -> (r: &str)
        ensures
            r@ == translation_text(self@, language@),
    {
        proof {
            reveal_strlit("");
        }
        let chosen: &Option<String> = if str_is(language, "fr") {
            &self.fr
        } else if str_is(language, "de") {
            &self.de
        } else {
            &self.en
        };
        match chosen {
            Some(s) => s.as_str(),
            None => "",
        }
    }
}

/// The text of a translation in a language, as `Translation::get` gives it.
pub open spec fn translation_text(t: TranslationView, language: Seq<char>) -> Seq<char> {
    let chosen = if language == "fr"@ {
        t.fr
    } else if language == "de"@ {
        t.de
    } else {
        t.en
    };
    match chosen {
        Some(s) => s,
        None => Seq::empty(),
    }
}

/// The number a YAML node gives a numeric signal parameter.
fn number_from_yaml(y: &YamlValue) -> (r: Option<SignalNumber>)
    ensures
        r.deep_view() == number_of(*y),
{
    match y {
        YamlValue::Real(s) => Some(SignalNumber::Real(s.clone())),
        YamlValue::Integer(i) => Some(SignalNumber::Integer(*i)),
        _ => None,
    }
}

/// Appends the value descriptions of a signal's `values` mapping to `out`.
fn append_value_items(out: &mut Vec<(i64, Option<Translation>)>, entries: &Vec<(YamlValue, YamlValue)>)
    ensures
        final(out).deep_view() == old(out).deep_view() + value_items(entries@),
{
    let ghost before = out.deep_view();
    let mut i: usize = 0;
    while i < entries.len()
        invariant
            i <= entries.len(),
            out.deep_view() == before + value_items(entries@.take(i as int)),
        decreases entries.len() - i,
    {
        assert(entries@.take(i + 1).drop_last() =~= entries@.take(i as int));
        assert(entries@.take(i + 1).last() == entries@[i as int]);
        let ghost prev = out.deep_view();
        if let YamlValue::Integer(n) = &entries[i].0 {
            let explanation = Translation::from_yaml(&entries[i].1);
            out.push((*n, explanation));
            assert(out.deep_view() =~= prev.push((*n, translation_of(entries@[i as int].1))));
        }
        i = i + 1;
        assert(out.deep_view() =~= before + value_items(entries@.take(i as int)));
    }
    assert(entries@.take(entries.len() as int) =~= entries@);
}

impl Signal {
    /// A signal with no parameter set.
    fn empty() -> (s: Signal)
        ensures
            s@ == empty_signal(),
    {
        let s = Signal {
            alt_names: None,
            bits: None,
            data_type: None,
            signed: None,
            factor: None,
            offset: None,
            min: None,
            max: None,
            units: None,
            comment: None,
            values: Vec::new(),
            unused: None,
        };
        assert(s@.values =~= Seq::<(i64, Option<TranslationView>)>::empty());
        s
    }

    /// Applies one mapping entry of a signal description.
    fn apply_entry(&mut self, key: &YamlValue, value: &YamlValue)
        ensures
            final(self)@ == signal_entry(old(self)@, *key, *value),
    {
        if let YamlValue::String(k) = key {
            let k = k.as_str();
            if str_is(k, "alt_names") {
                if let YamlValue::Array(items) = value {
                    let names = collect_strings(items);
                    if names.len() > 0 {
                        self.alt_names = Some(names);
                    }
                }
            } else if str_is(k, "bits") {
                if let YamlValue::String(v) = value {
                    self.bits = Some(v.clone());
                }
            } else if str_is(k, "type") {
                if let YamlValue::String(v) = value {
                    self.data_type = Some(v.clone());
                }
            } else if str_is(k, "signed") {
                if let YamlValue::Boolean(b) = value {
                    self.signed = Some(*b);
                }
            } else if str_is(k, "factor") {
                self.factor = number_from_yaml(value);
            } else if str_is(k, "offset") {
                self.offset = number_from_yaml(value);
            } else if str_is(k, "min") {
                self.min = number_from_yaml(value);
            } else if str_is(k, "max") {
                self.max = number_from_yaml(value);
            } else if str_is(k, "units") {
                if let YamlValue::String(v) = value {
                    self.units = Some(v.clone());
                }
            } else if str_is(k, "comment") {
                self.comment = Translation::from_yaml(value);
            } else if str_is(k, "values") {
                if let YamlValue::Hash(entries) = value {
                    append_value_items(&mut self.values, entries);
                }
            } else if str_is(k, "unused") {
                if let YamlValue::Boolean(b) = value {
                    self.unused = Some(*b);
                }
            }
        }
    }

    /// The signal a YAML node describes: its mapping entries are applied in order to a
    /// signal with nothing set; a node that is not a mapping gives that empty signal.
    pub fn from_yaml(yaml: &YamlValue) -> (r: Signal)
        ensures
            r@ == signal_of(*yaml),
    {
        let mut s = Signal::empty();
        if let YamlValue::Hash(entries) = yaml {
            let mut i: usize = 0;
            while i < entries.len()
                invariant
                    i <= entries.len(),
                    s@ == signal_entries(entries@.take(i as int)),
                decreases entries.len() - i,
            {
                assert(entries@.take(i + 1).drop_last() =~= entries@.take(i as int));
                s.apply_entry(&entries[i].0, &entries[i].1);
                i = i + 1;
            }
            assert(entries@.take(entries.len() as int) =~= entries@);
        }
        s
    }
}

/// Appends the signals of a message's `signals` mapping to `out`.
fn append_named_signals(out: &mut Vec<(String, Signal)>, entries: &Vec<(YamlValue, YamlValue)>)
    ensures
        final(out).deep_view() == old(out).deep_view() + named_signals(entries@),
{
    let ghost before = out.deep_view();
    let mut i: usize = 0;
    while i < entries.len()
        invariant
            i <= entries.len(),
            out.deep_view() == before + named_signals(entries@.take(i as int)),
        decreases entries.len() - i,
    {
        assert(entries@.take(i + 1).drop_last() =~= entries@.take(i as int));
        assert(entries@.take(i + 1).last() == entries@[i as int]);
        let ghost prev = out.deep_view();
        if let YamlValue::String(name) = &entries[i].0 {
            let signal = Signal::from_yaml(&entries[i].1);
            out.push((name.clone(), signal));
            assert(out.deep_view() =~= prev.push((name@, signal_of(entries@[i as int].1))));
        }
        i = i + 1;
        assert(out.deep_view() =~= before + named_signals(entries@.take(i as int)));
    }
    assert(entries@.take(entries.len() as int) =~= entries@);
}

/// The identifier text of an integer message id: `0x` and upper-case hexadecimal digits.
fn hex_id(n: i64) -> (r: String)
    ensures
        r@ == seq!['0', 'x'] + hex_digits(twos_complement(n)),
{
    let mut text: Vec<char> = Vec::new();
    text.push('0');
    text.push('x');
    let mut digits = i64_hex_text(n);
    text.append(&mut digits);
    string_from_chars(&text)
}

/// The periodicity a text gives.
pub fn periodicity_from_text(t: &str) -> (r: Periodicity)
    requires
        periodicity_text_ok(t@),
    ensures
        r == periodicity_of_text(t@),
{
    proof {
        reveal_strlit(" ms");
        reveal_strlit("ms");
    }
    if str_is(t, "trigger") {
        return Periodicity::Trigger;
    }
    let chars = chars_of(t);
    let spaced_unit = chars_of(" ms");
    let unit = chars_of("ms");
    if ends_with(&chars, &spaced_unit) {
        let number = trim_end(&chars, &spaced_unit);
        match parse_i64(&number) {
            Some(n) => Periodicity::Ms(n),
            None => Periodicity::Error,
        }
    } else if ends_with(&chars, &unit) {
        let number = trim_end(&chars, &unit);
        match parse_i64(&number) {
            Some(n) => Periodicity::Ms(n),
            None => Periodicity::Error,
        }
    } else {
        Periodicity::Error
    }
}

impl CanMessage {
    /// A message with nothing set.
    fn empty() -> (m: CanMessage)
        ensures
            m@ == empty_message(),
    {
        let m = CanMessage {
            id: None,
            name: None,
            alt_names: None,
            length: None,
            comment: None,
            bus_type: BusType::NA,
            periodicity: Periodicity::NA,
            senders: Vec::new(),
            receivers: Vec::new(),
            signals: Vec::new(),
        };
        assert(m@.senders =~= Seq::<Seq<char>>::empty());
        assert(m@.receivers =~= Seq::<Seq<char>>::empty());
        assert(m@.signals =~= Seq::<(Seq<char>, SignalView)>::empty());
        m
    }

    /// Applies one mapping entry of a message description.
    fn apply_entry(&mut self, key: &YamlValue, value: &YamlValue)
        requires
            message_entry_ok(*key, *value),
        ensures
            final(self)@ == message_entry(old(self)@, *key, *value),
    {
        if let YamlValue::String(k) = key {
            let k = k.as_str();
            if str_is(k, "id") {
                self.id = match value {
                    YamlValue::String(v) => Some(v.clone()),
                    YamlValue::Integer(n) => Some(hex_id(*n)),
                    _ => None,
                };
            } else if str_is(k, "name") {
                if let YamlValue::String(v) = value {
                    self.name = Some(v.clone());
                }
            } else if str_is(k, "alt_names") {
                if let YamlValue::Array(items) = value {
                    let names = collect_strings(items);
                    if names.len() > 0 {
                        self.alt_names = Some(names);
                    }
                }
            } else if str_is(k, "length") {
                if let YamlValue::Integer(n) = value {
                    self.length = Some(*n);
                }
            } else if str_is(k, "comment") {
                self.comment = Translation::from_yaml(value);
            } else if str_is(k, "type") {
                if let YamlValue::String(v) = value {
                    self.bus_type = if str_is(v.as_str(), "can") {
                        BusType::CAN
                    } else {
                        BusType::Error
                    };
                }
            } else if str_is(k, "periodicity") {
                match value {
                    YamlValue::Integer(n) => {
                        self.periodicity = Periodicity::Ms(*n);
                    },
                    YamlValue::String(t) => {
                        self.periodicity = periodicity_from_text(t.as_str());
                    },
                    _ => {},
                }
            } else if str_is(k, "senders") {
                if let YamlValue::Array(items) = value {
                    append_strings(&mut self.senders, items);
                }
            } else if str_is(k, "receivers") {
                if let YamlValue::Array(items) = value {
                    append_strings(&mut self.receivers, items);
                }
            } else if str_is(k, "signals") {
                if let YamlValue::Hash(entries) = value {
                    append_named_signals(&mut self.signals, entries);
                }
            }
        }
    }

    /// The message a YAML document describes: its mapping entries are applied in order to a
    /// message with nothing set; a document that is not a mapping gives that empty message.
    pub fn from_yaml(root: &YamlValue) -> (r: CanMessage)
        requires
            message_yaml_ok(*root),
        ensures
            r@ == message_of(*root),
    {
        let mut m = CanMessage::empty();
        if let YamlValue::Hash(entries) = root {
            assert(forall|j: int|
                0 <= j < entries@.len() ==> message_entry_ok(#[trigger] entries@[j].0, entries@[j].1));
            let mut i: usize = 0;
            while i < entries.len()
                invariant
                    i <= entries.len(),
                    forall|j: int|
                        0 <= j < entries@.len() ==> message_entry_ok(#[trigger] entries@[j].0, entries@[j].1),
                    m@ == message_entries(entries@.take(i as int)),
                decreases entries.len() - i,
            {
                assert(entries@.take(i + 1).drop_last() =~= entries@.take(i as int));
                assert(message_entry_ok(entries@[i as int].0, entries@[i as int].1));
                m.apply_entry(&entries[i].0, &entries[i].1);
                i = i + 1;
            }
            assert(entries@.take(entries.len() as int) =~= entries@);
        }
        m
    }

    /// Reads a message from loaded YAML documents: the first document's message, or the
    /// error `Can't parse YAML tree.` when the text was no YAML.
    pub fn from_yaml_documents(docs: Option<Vec<YamlValue>>) -> (r: Result<CanMessage, String>)
        requires
            documents_ok(documents_view(docs)),
        ensures
            message_result_view(r) == message_from_documents(documents_view(docs)),
    {
        match docs {
            Some(d) => Ok(CanMessage::from_yaml(&d[0])),
            None => Err("Can't parse YAML tree.".to_owned()),
        }
    }

    /// Reads a message from the text of a YAML file where that can be done: `None` exactly
    /// where the text is YAML without any document, or its first document writes a textual
    /// periodicity in milliseconds whose number is no `i64`.
    pub fn from_yaml_str(text: &str) -> (r: Option<Result<CanMessage, String>>)
        ensures
            r is None <==> !documents_ok(yaml_documents(text@)),
            r matches Some(res) ==> message_result_view(res) == message_from_documents(yaml_documents(text@)),
    {
        let docs = load_yaml_documents(text);
        match &docs {
            Some(d) => {
                if d.len() == 0 {
                    return None;
                }
                if !yaml_message_readable(&d[0]) {
                    return None;
                }
            },
            None => {},
        }
        Some(CanMessage::from_yaml_documents(docs))
    }
}

/// Whether a message description can be read (see `message_yaml_ok`).
#[verifier::loop_isolation(false)]
pub fn yaml_message_readable(root: &YamlValue) -> (b: bool)
    ensures
        b == message_yaml_ok(*root),
{
    proof {
        reveal_strlit(" ms");
        reveal_strlit("ms");
    }
    if let YamlValue::Hash(entries) = root {
        let mut i: usize = 0;
        while i < entries.len()
            invariant
                i <= entries.len(),
                forall|j: int| 0 <= j < i ==> message_entry_ok(#[trigger] entries@[j].0, entries@[j].1),
            decreases entries.len() - i,
        {
            proof {
                reveal_strlit(" ms");
                reveal_strlit("ms");
            }
            if let (YamlValue::String(k), YamlValue::String(t)) = (&entries[i].0, &entries[i].1) {
                if str_is(k.as_str(), "periodicity") && !str_is(t.as_str(), "trigger") {
                    let chars = chars_of(t.as_str());
                    let spaced_unit = chars_of(" ms");
                    let unit = chars_of("ms");
                    if ends_with(&chars, &spaced_unit) {
                        let number = trim_end(&chars, &spaced_unit);
                        if parse_i64(&number).is_none() {
                            assert(!message_entry_ok(entries@[i as int].0, entries@[i as int].1));
                            return false;
                        }
                    } else if ends_with(&chars, &unit) {
                        let number = trim_end(&chars, &unit);
                        if parse_i64(&number).is_none() {
                            assert(!message_entry_ok(entries@[i as int].0, entries@[i as int].1));
                            return false;
                        }
                    }
                }
            }
            i = i + 1;
        }
    }
    true
}

// ---------------------------------------------------------------------------
// Display texts
// ---------------------------------------------------------------------------

/// The display text of a bus type.
pub open spec fn bus_type_text(b: BusType) -> Seq<char> {
    match b {
        BusType::CAN => "CAN"@,
        BusType::VAN => "VAN"@,
        BusType::Kline => "K-L"@,
        BusType::Error => "Err"@,
        BusType::NA => "N/A"@,
    }
}

/// The display text of a periodicity: milliseconds right-aligned in four columns followed
/// by `ms`, `T` and milliseconds right-aligned in five columns, or a fixed six-column word.
pub open spec fn periodicity_text(p: Periodicity) -> Seq<char> {
    match p {
        Periodicity::Ms(ms) => pad_left(int_text(ms as int), 4) + "ms"@,
        Periodicity::Trigger => " Trig "@,
        Periodicity::TriggerOrMs(ms) => seq!['T'] + pad_left(int_text(ms as int), 5),
        Periodicity::Error => "Error "@,
        Periodicity::NA => "N/A   "@,
    }
}

impl BusType {
    /// The display text of the bus type.
    pub fn to_string(&self) -> (s: String)
        ensures
            s@ == bus_type_text(*self),
    {
        match self {
            BusType::CAN => "CAN".to_owned(),
            BusType::VAN => "VAN".to_owned(),
            BusType::Kline => "K-L".to_owned(),
            BusType::Error => "Err".to_owned(),
            BusType::NA => "N/A".to_owned(),
        }
    }
}

impl Periodicity {
    /// The display text of the periodicity.
    pub fn to_string(&self) -> (s: String)
        ensures
            s@ == periodicity_text(*self),
    {
        match self {
            Periodicity::Ms(ms) => {
                let mut text = pad_left_chars(&i64_text(*ms), 4);
                let mut unit = chars_of("ms");
                text.append(&mut unit);
                string_from_chars(&text)
            },
            Periodicity::Trigger => " Trig ".to_owned(),
            Periodicity::TriggerOrMs(ms) => {
                let mut text: Vec<char> = Vec::new();
                text.push('T');
                let mut number = pad_left_chars(&i64_text(*ms), 5);
                text.append(&mut number);
                assert(text@ =~= seq!['T'] + pad_left(int_text(*ms as int), 5));
                string_from_chars(&text)
            },
            Periodicity::Error => "Error ".to_owned(),
            Periodicity::NA => "N/A   ".to_owned(),
        }
    }
}

/// A text that may be absent, read as the empty text when absent.
pub open spec fn text_or_empty(t: Option<Seq<char>>) -> Seq<char> {
    match t {
        Some(s) => s,
        None => Seq::empty(),
    }
}

/// The cells of a message's row in the message table: id, name, periodicity, length
/// (0 when absent), English comment, and bus type.
pub open spec fn table_cells_spec(m: CanMessageView) -> Seq<Seq<char>> {
    seq![
        text_or_empty(m.id),
        text_or_empty(m.name),
        periodicity_text(m.periodicity),
        int_text(
            match m.length {
                Some(n) => n as int,
                None => 0,
            },
        ),
        match m.comment {
            Some(c) => translation_text(c, "en"@),
            None => Seq::empty(),
        },
        bus_type_text(m.bus_type),
    ]
}

/// A text that may be absent, as a `String` that is empty when absent.
fn owned_or_empty(t: &Option<String>) -> (r: String)
    ensures
        r@ == text_or_empty(t.deep_view()),
{
    proof {
        reveal_strlit("");
    }
    match t {
        Some(s) => s.clone(),
        None => "".to_owned(),
    }
}

impl CanMessage {
    /// The cells of the message's row in the message table.
    pub fn table_cells(&self) -> (r: Vec<String>)
        ensures
            r.deep_view() == table_cells_spec(self@),
    {
        proof {
            reveal_strlit("");
        }
        let mut cells: Vec<String> = Vec::new();
        cells.push(owned_or_empty(&self.id));
        cells.push(owned_or_empty(&self.name));
        cells.push(self.periodicity.to_string());
        let length: i64 = match self.length {
            Some(n) => n,
            None => 0,
        };
        cells.push(string_from_chars(&i64_text(length)));
        let comment: String = match &self.comment {
            Some(c) => c.get("en").to_owned(),
            None => "".to_owned(),
        };
        cells.push(comment);
        cells.push(self.bus_type.to_string());
        let ghost spec_cells = table_cells_spec(self@);
        assert(cells.deep_view()[0] == spec_cells[0]);
        assert(cells.deep_view()[1] == spec_cells[1]);
        assert(cells.deep_view()[2] == spec_cells[2]);
        assert(cells.deep_view()[3] == spec_cells[3]);
        assert(cells.deep_view()[4] == spec_cells[4]);
        assert(cells.deep_view()[5] == spec_cells[5]);
        assert(cells.deep_view() =~= table_cells_spec(self@));
        cells
    }
}

/// A periodicity written as a whole number of milliseconds, `<n> ms` or `<n>ms`, can be read
/// and reads as that number of milliseconds.
pub proof fn lemma_periodicity_ms_text_reads_back(n: i64)
    ensures
        periodicity_text_ok(int_text(n as int) + " ms"@),
        periodicity_of_text(int_text(n as int) + " ms"@) == Periodicity::Ms(n),
        periodicity_text_ok(int_text(n as int) + "ms"@),
        periodicity_of_text(int_text(n as int) + "ms"@) == Periodicity::Ms(n),
{
    reveal_strlit(" ms");
    reveal_strlit("ms");
    reveal_strlit("trigger");
    lemma_parse_int_text(n);
    let d = int_text(n as int);
    let spaced = d + " ms"@;
    let plain = d + "ms"@;
    // `<n> ms`
    assert(spaced.subrange(spaced.len() - 3, spaced.len() as int) =~= " ms"@);
    assert(spaced.subrange(0, spaced.len() - 3) =~= d);
    assert(!ends_with_spec(d, " ms"@)) by {
        if ends_with_spec(d, " ms"@) {
            assert(d.subrange(d.len() - 3, d.len() as int)[2] == d.last());
        }
    }
    assert(trim_end_spec(d, " ms"@) == d);
    assert(trim_end_spec(spaced, " ms"@) == d);
    assert(spaced != "trigger"@) by {
        assert(spaced[spaced.len() - 1] == 's');
        assert("trigger"@[6] == 'r');
    }
    // `<n>ms`
    assert(plain.subrange(plain.len() - 2, plain.len() as int) =~= "ms"@);
    assert(plain.subrange(0, plain.len() - 2) =~= d);
    assert(!ends_with_spec(plain, " ms"@)) by {
        if ends_with_spec(plain, " ms"@) {
            assert(plain.subrange(plain.len() - 3, plain.len() as int)[0] == d.last());
        }
    }
    assert(!ends_with_spec(d, "ms"@)) by {
        if ends_with_spec(d, "ms"@) {
            assert(d.subrange(d.len() - 2, d.len() as int)[1] == d.last());
        }
    }
    assert(trim_end_spec(d, "ms"@) == d);
    assert(trim_end_spec(plain, "ms"@) == d);
    assert(plain != "trigger"@) by {
        assert(plain[plain.len() - 1] == 's');
        assert("trigger"@[6] == 'r');
    }
}

/// Every periodicity's display text is at least six characters wide, so the period column
/// of the message table stays aligned.
pub proof fn lemma_periodicity_text_width(p: Periodicity)
    ensures
        periodicity_text(p).len() >= 6,
{
    reveal_strlit("ms");
    reveal_strlit(" Trig ");
    reveal_strlit("Error ");
    reveal_strlit("N/A   ");
    match p {
        Periodicity::Ms(ms) => {
            assert(pad_left(int_text(ms as int), 4).len() >= 4);
        },
        Periodicity::TriggerOrMs(ms) => {
            assert(pad_left(int_text(ms as int), 5).len() >= 5);
        },
        _ => {},
    }
}

/// In the ranges the message table is made for (milliseconds from -999 to 9999, or from -9999
/// to 99999 after `T`), every periodicity's display text is exactly six characters wide.
pub proof fn lemma_periodicity_text_exact_width(p: Periodicity)
    requires
        p matches Periodicity::Ms(ms) ==> -999 <= ms <= 9999,
        p matches Periodicity::TriggerOrMs(ms) ==> -9999 <= ms <= 99999,
    ensures
        periodicity_text(p).len() == 6,
{
    reveal_strlit("ms");
    reveal_strlit(" Trig ");
    reveal_strlit("Error ");
    reveal_strlit("N/A   ");
    assert(pow10(0) == 1);
    assert(pow10(1) == 10);
    assert(pow10(2) == 100);
    assert(pow10(3) == 1000);
    assert(pow10(4) == 10000);
    assert(pow10(5) == 100000);
    match p {
        Periodicity::Ms(ms) => {
            if ms < 0 {
                lemma_decimal_digits_len((-ms) as nat, 3);
            } else {
                lemma_decimal_digits_len(ms as nat, 4);
            }
            assert(int_text(ms as int).len() <= 4);
            assert(pad_left(int_text(ms as int), 4).len() == 4);
        },
        Periodicity::TriggerOrMs(ms) => {
            if ms < 0 {
                lemma_decimal_digits_len((-ms) as nat, 4);
            } else {
                lemma_decimal_digits_len(ms as nat, 5);
            }
            assert(int_text(ms as int).len() <= 5);
            assert(pad_left(int_text(ms as int), 5).len() == 5);
        },
        _ => {},
    }
}

// ---------------------------------------------------------------------------
// Laws of reading descriptions
// ---------------------------------------------------------------------------

/// A YAML node is the string `name`.
pub open spec fn key_is(key: YamlValue, name: Seq<char>) -> bool {
    key matches YamlValue::String(k) && k@ == name
}

/// Looking up a translation: `en`, `fr` and `de` give that language's text (empty when
/// absent), and any other language gives the English text.
pub proof fn lemma_translation_lookup(t: TranslationView, language: Seq<char>)
    ensures
        t.en matches Some(s) ==> translation_text(t, "en"@) == s,
        t.fr matches Some(s) ==> translation_text(t, "fr"@) == s,
        t.de matches Some(s) ==> translation_text(t, "de"@) == s,
        t.en is None ==> translation_text(t, "en"@) == Seq::<char>::empty(),
        t.fr is None ==> translation_text(t, "fr"@) == Seq::<char>::empty(),
        t.de is None ==> translation_text(t, "de"@) == Seq::<char>::empty(),
        language != "fr"@ && language != "de"@ ==> translation_text(t, language) == translation_text(t, "en"@),
{
    reveal_strlit("en");
    reveal_strlit("fr");
    reveal_strlit("de");
    assert("en"@[0] != "fr"@[0]);
    assert("en"@[0] != "de"@[0]);
}

/// Reading a translation, a string entry `en`, `fr` or `de` with a string value sets that
/// language's text and leaves the others as they were; any other entry changes nothing.
pub proof fn lemma_translation_entry_effects(entries: Seq<(YamlValue, YamlValue)>)
    requires
        entries.len() > 0,
    ensures
        ({
            let before = translation_entries(entries.drop_last());
            let after = translation_entries(entries);
            let key = entries.last().0;
            let value = entries.last().1;
            &&& key_is(key, "en"@) ==> (value matches YamlValue::String(v) ==> after.en == Some(v@)
                && after.fr == before.fr && after.de == before.de)
            &&& key_is(key, "fr"@) ==> (value matches YamlValue::String(v) ==> after.fr == Some(v@)
                && after.en == before.en && after.de == before.de)
            &&& key_is(key, "de"@) ==> (value matches YamlValue::String(v) ==> after.de == Some(v@)
                && after.en == before.en && after.fr == before.fr)
            &&& !(value is String) ==> after == before
            &&& !key_is(key, "en"@) && !key_is(key, "fr"@) && !key_is(key, "de"@) ==> after == before
        }),
{
    reveal_strlit("en");
    reveal_strlit("fr");
    reveal_strlit("de");
    assert("en"@[0] != "fr"@[0]);
    assert("en"@[0] != "de"@[0]);
    assert("fr"@[0] != "de"@[0]);
}

/// Reading a signal, each entry sets only its own parameter: `alt_names` (a sequence with
/// string items) the alternative names, `bits`, `type` and `units` (strings) their texts,
/// `signed` and `unused` (booleans) their flags, `factor`, `offset`, `min` and `max` their
/// numbers (none for a value that is no number), `comment` its translation, `values` (a
/// mapping) appends value descriptions; an entry of the wrong kind, or with another key,
/// changes nothing.
pub proof fn lemma_signal_entry_effects(entries: Seq<(YamlValue, YamlValue)>)
    requires
        entries.len() > 0,
    ensures
        ({
            let before = signal_entries(entries.drop_last());
            let after = signal_entries(entries);
            let key = entries.last().0;
            let value = entries.last().1;
            &&& key_is(key, "alt_names"@) ==> (value matches YamlValue::Array(items) ==> after == (
            if string_items(items@).len() > 0 {
                SignalView { alt_names: Some(string_items(items@)), ..before }
            } else {
                before
            }))
            &&& key_is(key, "bits"@) ==> (value matches YamlValue::String(v) ==> after == SignalView {
                bits: Some(v@),
                ..before
            })
            &&& key_is(key, "type"@) ==> (value matches YamlValue::String(v) ==> after == SignalView {
                data_type: Some(v@),
                ..before
            })
            &&& key_is(key, "signed"@) ==> (value matches YamlValue::Boolean(b) ==> after == SignalView {
                signed: Some(b),
                ..before
            })
            &&& key_is(key, "factor"@) ==> after == SignalView { factor: number_of(value), ..before }
            &&& key_is(key, "offset"@) ==> after == SignalView { offset: number_of(value), ..before }
            &&& key_is(key, "min"@) ==> after == SignalView { min: number_of(value), ..before }
            &&& key_is(key, "max"@) ==> after == SignalView { max: number_of(value), ..before }
            &&& key_is(key, "units"@) ==> (value matches YamlValue::String(v) ==> after == SignalView {
                units: Some(v@),
                ..before
            })
            &&& key_is(key, "comment"@) ==> after == SignalView { comment: translation_of(value), ..before }
            &&& key_is(key, "values"@) ==> (value matches YamlValue::Hash(e) ==> after == SignalView {
                values: before.values + value_items(e@),
                ..before
            })
            &&& key_is(key, "unused"@) ==> (value matches YamlValue::Boolean(b) ==> after == SignalView {
                unused: Some(b),
                ..before
            })
            &&& (key_is(key, "alt_names"@) && !(value is Array)) ==> after == before
            &&& ((key_is(key, "bits"@) || key_is(key, "type"@) || key_is(key, "units"@)) && !(value is String))
                ==> after == before
            &&& ((key_is(key, "signed"@) || key_is(key, "unused"@)) && !(value is Boolean)) ==> after == before
            &&& (key_is(key, "values"@) && !(value is Hash)) ==> after == before
            &&& !key_is(key, "alt_names"@) && !key_is(key, "bits"@) && !key_is(key, "type"@)
                && !key_is(key, "signed"@) && !key_is(key, "factor"@) && !key_is(key, "offset"@)
                && !key_is(key, "min"@) && !key_is(key, "max"@) && !key_is(key, "units"@)
                && !key_is(key, "comment"@) && !key_is(key, "values"@) && !key_is(key, "unused"@)
                ==> after == before
        }),
{
    reveal_strlit("alt_names");
    reveal_strlit("bits");
    reveal_strlit("type");
    reveal_strlit("signed");
    reveal_strlit("factor");
    reveal_strlit("offset");
    reveal_strlit("min");
    reveal_strlit("max");
    reveal_strlit("units");
    reveal_strlit("comment");
    reveal_strlit("values");
    reveal_strlit("unused");
    assert("alt_names"@.len() == 9 && "alt_names"@[0] == 'a');
    assert("bits"@.len() == 4 && "bits"@[0] == 'b');
    assert("type"@.len() == 4 && "type"@[0] == 't');
    assert("signed"@.len() == 6 && "signed"@[0] == 's');
    assert("factor"@.len() == 6 && "factor"@[0] == 'f');
    assert("offset"@.len() == 6 && "offset"@[0] == 'o');
    assert("min"@.len() == 3 && "min"@[0] == 'm');
    assert("max"@.len() == 3 && "max"@[0] == 'm');
    assert("units"@.len() == 5 && "units"@[0] == 'u');
    assert("comment"@.len() == 7 && "comment"@[0] == 'c');
    assert("values"@.len() == 6 && "values"@[0] == 'v');
    assert("unused"@.len() == 6 && "unused"@[0] == 'u');
    assert("min"@[1] == 'i');
    assert("max"@[1] == 'a');
}

/// The reading of a message, each entry setting only its own field: `id` (a string as it is,
/// an integer in hexadecimal after `0x`, else none), `name` (a string), `alt_names` (a
/// sequence with string items), `length` (an integer), `comment` (a translation), `type` (a
/// string: `can` the CAN bus, anything else an error), `periodicity` (an integer of
/// milliseconds, or a text), `senders` and `receivers` (sequences, whose strings are
/// appended) and `signals` (a mapping, whose named signals are appended); an entry of the
/// wrong kind, or with another key, changes nothing.
pub proof fn lemma_message_entry_effects(entries: Seq<(YamlValue, YamlValue)>)
    requires
        entries.len() > 0,
    ensures
        ({
            let before = message_entries(entries.drop_last());
            let after = message_entries(entries);
            let key = entries.last().0;
            let value = entries.last().1;
            &&& key_is(key, "id"@) ==> after == CanMessageView { id: id_of(value), ..before }
            &&& key_is(key, "name"@) ==> (value matches YamlValue::String(v) ==> after == CanMessageView {
                name: Some(v@),
                ..before
            })
            &&& key_is(key, "alt_names"@) ==> (value matches YamlValue::Array(items) ==> after == (
            if string_items(items@).len() > 0 {
                CanMessageView { alt_names: Some(string_items(items@)), ..before }
            } else {
                before
            }))
            &&& key_is(key, "length"@) ==> (value matches YamlValue::Integer(n) ==> after == CanMessageView {
                length: Some(n),
                ..before
            })
            &&& key_is(key, "comment"@) ==> after == CanMessageView { comment: translation_of(value), ..before }
            &&& key_is(key, "type"@) && key_is(value, "can"@) ==> after == CanMessageView {
                bus_type: BusType::CAN,
                ..before
            }
            &&& key_is(key, "type"@) && value is String && !key_is(value, "can"@) ==> after
                == CanMessageView { bus_type: BusType::Error, ..before }
            &&& key_is(key, "periodicity"@) ==> (value matches YamlValue::Integer(n) ==> after
                == CanMessageView { periodicity: Periodicity::Ms(n), ..before })
            &&& key_is(key, "periodicity"@) ==> (value matches YamlValue::String(t) ==> after
                == CanMessageView { periodicity: periodicity_of_text(t@), ..before })
            &&& key_is(key, "senders"@) ==> (value matches YamlValue::Array(items) ==> after
                == CanMessageView { senders: before.senders + string_items(items@), ..before })
            &&& key_is(key, "receivers"@) ==> (value matches YamlValue::Array(items) ==> after
                == CanMessageView { receivers: before.receivers + string_items(items@), ..before })
            &&& key_is(key, "signals"@) ==> (value matches YamlValue::Hash(e) ==> after == CanMessageView {
                signals: before.signals + named_signals(e@),
                ..before
            })
            &&& ((key_is(key, "name"@) || key_is(key, "type"@)) && !(value is String)) ==> after == before
            &&& ((key_is(key, "alt_names"@) || key_is(key, "senders"@) || key_is(key, "receivers"@))
                && !(value is Array)) ==> after == before
            &&& (key_is(key, "length"@) && !(value is Integer)) ==> after == before
            &&& (key_is(key, "periodicity"@) && !(value is Integer) && !(value is String)) ==> after == before
            &&& (key_is(key, "signals"@) && !(value is Hash)) ==> after == before
            &&& !key_is(key, "id"@) && !key_is(key, "name"@) && !key_is(key, "alt_names"@)
                && !key_is(key, "length"@) && !key_is(key, "comment"@) && !key_is(key, "type"@)
                && !key_is(key, "periodicity"@) && !key_is(key, "senders"@) && !key_is(
                key,
                "receivers"@,
            ) && !key_is(key, "signals"@) ==> after == before
        }),
{
    reveal_strlit("id");
    reveal_strlit("name");
    reveal_strlit("alt_names");
    reveal_strlit("length");
    reveal_strlit("comment");
    reveal_strlit("type");
    reveal_strlit("periodicity");
    reveal_strlit("senders");
    reveal_strlit("receivers");
    reveal_strlit("signals");
    reveal_strlit("can");
    assert("id"@.len() == 2 && "id"@[0] == 'i');
    assert("name"@.len() == 4 && "name"@[0] == 'n');
    assert("alt_names"@.len() == 9 && "alt_names"@[0] == 'a');
    assert("length"@.len() == 6 && "length"@[0] == 'l');
    assert("comment"@.len() == 7 && "comment"@[0] == 'c');
    assert("type"@.len() == 4 && "type"@[0] == 't');
    assert("periodicity"@.len() == 11 && "periodicity"@[0] == 'p');
    assert("senders"@.len() == 7 && "senders"@[0] == 's');
    assert("receivers"@.len() == 9 && "receivers"@[0] == 'r');
    assert("signals"@.len() == 7 && "signals"@[0] == 's');
    assert("can"@.len() == 3 && "can"@[0] == 'c');
    assert("senders"@[1] == 'e');
    assert("signals"@[1] == 'i');
}

/// A periodicity text reads as `trigger`, as a number of milliseconds when written with the
/// unit `ms` (with or without a space before it), and as an error otherwise.
pub proof fn lemma_periodicity_text_kinds(t: Seq<char>)
    ensures
        t == "trigger"@ ==> periodicity_of_text(t) == Periodicity::Trigger,
        t != "trigger"@ && !ends_with_spec(t, "ms"@) ==> periodicity_of_text(t) == Periodicity::Error,
        t != "trigger"@ && ends_with_spec(t, "ms"@) && periodicity_text_ok(t) ==> periodicity_of_text(t) is Ms,
{
    reveal_strlit("trigger");
    reveal_strlit(" ms");
    reveal_strlit("ms");
    if ends_with_spec(t, " ms"@) {
        assert(t.subrange(t.len() - 2, t.len() as int) =~= "ms"@) by {
            assert(t.subrange(t.len() - 3, t.len() as int)[1] == 'm');
            assert(t.subrange(t.len() - 3, t.len() as int)[2] == 's');
        }
    }
}

} // verus!
