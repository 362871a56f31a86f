//! Lines that are HTTP structured field values: a dictionary, a list or a
//! single item with parameters. The grammar is read by the `sfv` crate; what
//! is made of the result is decided here.

use crate::base64::{base64_encode, base64_text};
use crate::fields::FieldMap;
use crate::legacy_headers::{
    has_equals, legacy_structured_fields, parse_legacy_structured_headers,
};
use crate::text::{decimal_text, push_decimal, push_signed_decimal, signed_decimal_text};
use vstd::prelude::*;
use vstd::string::StringExecFns;

verus! {

/// A member of a list or the value of a dictionary member, as `sfv` parses it.
#[verifier::external_type_specification]
#[verifier::external_body]
pub struct ExListEntry(sfv::ListEntry);

/// The bare item of `sfv`, generic in how it holds its texts and bytes.
#[verifier::external_type_specification]
#[verifier::external_body]
#[verifier::reject_recursive_types(S)]
#[verifier::reject_recursive_types(B)]
#[verifier::reject_recursive_types(T)]
#[verifier::reject_recursive_types(D)]
pub struct ExGenericBareItem<S, B, T, D>(sfv::GenericBareItem<S, B, T, D>);

/// The string type of `sfv`.
#[verifier::external_type_specification]
#[verifier::external_body]
pub struct ExSfvString(sfv::String);

/// The token type of `sfv`.
#[verifier::external_type_specification]
#[verifier::external_body]
pub struct ExSfvToken(sfv::Token);

/// One bare value of a structured field.
#[derive(Debug)]
pub enum BareValue {
    /// An integer.
    Integer(i64),
    /// A decimal, in the text that `sfv` prints it as.
    Decimal(String),
    /// A string, unescaped.
    Text(String),
    /// A token.
    Token(String),
    /// A byte sequence, decoded.
    ByteSequence(Vec<u8>),
    /// A boolean.
    Boolean(bool),
    /// A date, in seconds since the Unix epoch.
    Date(i64),
    /// A display string, decoded.
    DisplayText(String),
}

/// A `BareValue` as plain values.
pub enum BareValueView {
    Integer(int),
    Decimal(Seq<char>),
    Text(Seq<char>),
    Token(Seq<char>),
    ByteSequence(Seq<u8>),
    Boolean(bool),
    Date(int),
    DisplayText(Seq<char>),
}

impl View for BareValue {
    type V = BareValueView;

    open spec fn view(&self) -> BareValueView {
        match *self {
            BareValue::Integer(n) => BareValueView::Integer(n as int),
            BareValue::Decimal(t) => BareValueView::Decimal(t@),
            BareValue::Text(t) => BareValueView::Text(t@),
            BareValue::Token(t) => BareValueView::Token(t@),
            BareValue::ByteSequence(b) => BareValueView::ByteSequence(b@),
            BareValue::Boolean(b) => BareValueView::Boolean(b),
            BareValue::Date(n) => BareValueView::Date(n as int),
            BareValue::DisplayText(t) => BareValueView::DisplayText(t@),
        }
    }
}

/// One parameter of an item or of an inner list.
#[derive(Debug)]
pub struct Param {
    pub key: String,
    pub value: BareValue,
}

impl View for Param {
    type V = (Seq<char>, BareValueView);

    open spec fn view(&self) -> (Seq<char>, BareValueView) {
        (self.key@, self.value@)
    }
}

/// An item or an inner list, with its parameters.
#[derive(Debug)]
pub struct Entry {
    /// Whether this is an inner list.
    pub inner_list: bool,
    /// The bare values: one for an item, any number for an inner list.
    pub values: Vec<BareValue>,
    /// The parameters of the item or of the inner list, in order.
    pub params: Vec<Param>,
}

/// An `Entry` as plain values.
pub struct EntryView {
    pub inner_list: bool,
    pub values: Seq<BareValueView>,
    pub params: Seq<(Seq<char>, BareValueView)>,
}

impl View for Entry {
    type V = EntryView;

    open spec fn view(&self) -> EntryView {
        EntryView {
            inner_list: self.inner_list,
            values: self.values@.map_values(|v: BareValue| v@),
            params: self.params@.map_values(|p: Param| p@),
        }
    }
}

/// One member of a dictionary.
#[derive(Debug)]
pub struct Member {
    pub key: String,
    pub entry: Entry,
}

impl View for Member {
    type V = (Seq<char>, EntryView);

    open spec fn view(&self) -> (Seq<char>, EntryView) {
        (self.key@, self.entry@)
    }
}

/// The entries of a list, each as plain values.
pub open spec fn entries_view(entries: Seq<Entry>) -> Seq<EntryView> {
    entries.map_values(|e: Entry| e@)
}

/// The members of a dictionary, each as plain values.
pub open spec fn dictionary_view(members: Seq<Member>) -> Seq<(Seq<char>, EntryView)> {
    members.map_values(|m: Member| m@)
}

/// What `sfv` reads `input` as when asked for a dictionary: its members in
/// order, or nothing when the text is no dictionary.
pub uninterp spec fn sfv_dictionary_of(input: Seq<char>) -> Option<Seq<(Seq<char>, EntryView)>>;

/// What `sfv` reads `input` as when asked for a list: its members in order,
/// or nothing when the text is no list.
pub uninterp spec fn sfv_list_of(input: Seq<char>) -> Option<Seq<EntryView>>;

/// What `sfv` reads `input` as when asked for a single item, or nothing when
/// the text is no item.
pub uninterp spec fn sfv_item_of(input: Seq<char>) -> Option<EntryView>;

/// What a parsed member holds: whether it is an inner list, its bare values
/// (one for an item) and the parameters of the item or of the inner list.
pub uninterp spec fn entry_model(entry: sfv::ListEntry) -> EntryView;

/// What a bare item of `sfv` holds.
pub uninterp spec fn bare_model(item: sfv::BareItem) -> BareValueView;

/// The bare items of a list, each as plain values.
pub open spec fn bare_models(items: Seq<sfv::BareItem>) -> Seq<BareValueView> {
    items.map_values(|b: sfv::BareItem| bare_model(b))
}

/// Keyed bare items, each as plain values.
pub open spec fn param_models(params: Seq<(String, sfv::BareItem)>) -> Seq<
    (Seq<char>, BareValueView),
> {
    params.map_values(|p: (String, sfv::BareItem)| (p.0@, bare_model(p.1)))
}

/// Parsed members, each as plain values.
pub open spec fn entry_models(entries: Seq<sfv::ListEntry>) -> Seq<EntryView> {
    entries.map_values(|e: sfv::ListEntry| entry_model(e))
}

/// Keyed parsed members, each as plain values.
pub open spec fn member_models(members: Seq<(String, sfv::ListEntry)>) -> Seq<
    (Seq<char>, EntryView),
> {
    members.map_values(|m: (String, sfv::ListEntry)| (m.0@, entry_model(m.1)))
}

/// Calls `sfv::Parser::new(input).parse::<sfv::Dictionary>()` and hands out
/// the keys and members in the dictionary's order. Parsing has no state, so
/// the result depends on the text alone.
#[verifier::external_body]
fn read_sfv_dictionary(input: &str) -> (members: Option<Vec<(String, sfv::ListEntry)>>)
    ensures
        match members {
            Some(list) => sfv_dictionary_of(input@) == Some(member_models(list@)),
            None => sfv_dictionary_of(input@) is None,
        },
{
    let dictionary = sfv::Parser::new(input).parse::<sfv::Dictionary>().ok()?;
    Some(dictionary.into_iter().map(|(key, entry)| (key.as_str().to_owned(), entry)).collect())
}

/// Calls `sfv::Parser::new(input).parse::<sfv::List>()` and hands out the
/// members in order. Parsing has no state, so the result depends on the text alone.
#[verifier::external_body]
fn read_sfv_list(input: &str) -> (entries: Option<Vec<sfv::ListEntry>>)
    ensures
        match entries {
            Some(list) => sfv_list_of(input@) == Some(entry_models(list@)),
            None => sfv_list_of(input@) is None,
        },
{
    sfv::Parser::new(input).parse::<sfv::List>().ok()
}

/// Calls `sfv::Parser::new(input).parse::<sfv::Item>()` and hands out the
/// item as a member. Parsing has no state, so the result depends on the text alone.
#[verifier::external_body]
fn read_sfv_item(input: &str) -> (item: Option<sfv::ListEntry>)
    ensures
        match item {
            Some(entry) => sfv_item_of(input@) == Some(entry_model(entry)),
            None => sfv_item_of(input@) is None,
        },
{
    sfv::Parser::new(input).parse::<sfv::Item>().ok().map(sfv::ListEntry::Item)
}

/// Tells whether a member is the `InnerList` variant of `sfv::ListEntry`.
#[verifier::external_body]
fn entry_is_inner_list(entry: &sfv::ListEntry) -> (inner_list: bool)
    ensures
        inner_list == entry_model(*entry).inner_list,
{
    match entry {
        sfv::ListEntry::Item(_) => false,
        sfv::ListEntry::InnerList(_) => true,
    }
}

/// Hands out the bare items of a member: the `bare_item` field of an item,
/// or that of each item of an inner list, in order.
#[verifier::external_body]
fn entry_bare_items(entry: &sfv::ListEntry) -> (items: Vec<sfv::BareItem>)
    ensures
        bare_models(items@) == entry_model(*entry).values,
{
    match entry {
        sfv::ListEntry::Item(item) => vec![item.bare_item.clone()],
        sfv::ListEntry::InnerList(list) => list.items.iter().map(|i| i.bare_item.clone()).collect(),
    }
}

/// Hands out the `params` field of an item or of an inner list: keys and
/// bare items in the order of the map.
#[verifier::external_body]
fn entry_parameters(entry: &sfv::ListEntry) -> (params: Vec<(String, sfv::BareItem)>)
    ensures
        param_models(params@) == entry_model(*entry).params,
{
    let params = match entry {
        sfv::ListEntry::Item(item) => &item.params,
        sfv::ListEntry::InnerList(list) => &list.params,
    };
    params.iter().map(|(key, item)| (key.as_str().to_owned(), item.clone())).collect()
}

/// Tells the variants of `sfv::BareItem` apart and moves what each holds:
/// integers and dates as `i64`, decimals through the crate's `Display`,
/// strings and tokens through `as_str`, bytes and booleans as they are.
#[verifier::external_body]
fn bare_value_of(item: &sfv::BareItem) -> (value: BareValue)
    ensures
        value@ == bare_model(*item),
{
    match item {
        sfv::BareItem::Integer(v) => BareValue::Integer(i64::from(*v)),
        sfv::BareItem::Decimal(v) => BareValue::Decimal(v.to_string()),
        sfv::BareItem::String(v) => BareValue::Text(v.as_str().to_owned()),
        sfv::BareItem::Token(v) => BareValue::Token(v.as_str().to_owned()),
        sfv::BareItem::ByteSequence(v) => BareValue::ByteSequence(v.clone()),
        sfv::BareItem::Boolean(v) => BareValue::Boolean(*v),
        sfv::BareItem::Date(v) => BareValue::Date(i64::from(v.unix_seconds())),
        sfv::BareItem::DisplayString(v) => BareValue::DisplayText(v.clone()),
    }
}

/// A parsed member as a value of this library.
fn entry_from(parsed: &sfv::ListEntry) -> (entry: Entry)
    ensures
        entry@ == entry_model(*parsed),
{
    let items = entry_bare_items(parsed);
    let mut values: Vec<BareValue> = Vec::new();
    let mut i: usize = 0;
    while i < items.len()
        invariant
            i <= items.len(),
            values@.map_values(|v: BareValue| v@) == bare_models(items@).take(i as int),
        decreases items.len() - i,
    {
        let ghost before = values@.map_values(|v: BareValue| v@);
        let value = bare_value_of(&items[i]);
        let ghost shown = value@;
        values.push(value);
        proof {
            assert(values@.map_values(|v: BareValue| v@) =~= before.push(shown));
            assert(bare_models(items@)[i as int] == shown);
            assert(bare_models(items@).take(i + 1) =~= bare_models(items@).take(i as int).push(
                shown,
            ));
        }
        i += 1;
    }
    let keyed = entry_parameters(parsed);
    let mut params: Vec<Param> = Vec::new();
    let mut j: usize = 0;
    while j < keyed.len()
        invariant
            j <= keyed.len(),
            params@.map_values(|p: Param| p@) == param_models(keyed@).take(j as int),
        decreases keyed.len() - j,
    {
        let ghost before = params@.map_values(|p: Param| p@);
        let pair = &keyed[j];
        let param = Param { key: pair.0.clone(), value: bare_value_of(&pair.1) };
        let ghost shown = param@;
        params.push(param);
        proof {
            assert(params@.map_values(|p: Param| p@) =~= before.push(shown));
            assert(param_models(keyed@)[j as int] == shown);
            assert(param_models(keyed@).take(j + 1) =~= param_models(keyed@).take(j as int).push(
                shown,
            ));
        }
        j += 1;
    }
    let entry = Entry { inner_list: entry_is_inner_list(parsed), values, params };
    proof {
        assert(bare_models(items@).take(i as int) =~= bare_models(items@));
        assert(param_models(keyed@).take(j as int) =~= param_models(keyed@));
    }
    entry
}

/// Parsed members as values of this library.
fn entries_from(parsed: &Vec<sfv::ListEntry>) -> (entries: Vec<Entry>)
    ensures
        entries_view(entries@) == entry_models(parsed@),
{
    let mut entries: Vec<Entry> = Vec::new();
    let mut i: usize = 0;
    while i < parsed.len()
        invariant
            i <= parsed.len(),
            entries_view(entries@) == entry_models(parsed@).take(i as int),
        decreases parsed.len() - i,
    {
        let ghost before = entries_view(entries@);
        let entry = entry_from(&parsed[i]);
        let ghost shown = entry@;
        entries.push(entry);
        proof {
            assert(entries_view(entries@) =~= before.push(shown));
            assert(entry_models(parsed@)[i as int] == shown);
            assert(entry_models(parsed@).take(i + 1) =~= entry_models(parsed@).take(i as int).push(
                shown,
            ));
        }
        i += 1;
    }
    assert(entry_models(parsed@).take(i as int) =~= entry_models(parsed@));
    entries
}

/// Keyed parsed members as values of this library.
fn members_from(parsed: &Vec<(String, sfv::ListEntry)>) -> (members: Vec<Member>)
    ensures
        dictionary_view(members@) == member_models(parsed@),
{
    let mut members: Vec<Member> = Vec::new();
    let mut i: usize = 0;
    while i < parsed.len()
        invariant
            i <= parsed.len(),
            dictionary_view(members@) == member_models(parsed@).take(i as int),
        decreases parsed.len() - i,
    {
        let ghost before = dictionary_view(members@);
        let pair = &parsed[i];
        let member = Member { key: pair.0.clone(), entry: entry_from(&pair.1) };
        let ghost shown = member@;
        members.push(member);
        proof {
            assert(dictionary_view(members@) =~= before.push(shown));
            assert(member_models(parsed@)[i as int] == shown);
            assert(member_models(parsed@).take(i + 1) =~= member_models(parsed@).take(
                i as int,
            ).push(shown));
        }
        i += 1;
    }
    assert(member_models(parsed@).take(i as int) =~= member_models(parsed@));
    members
}

/// The text a bare value is shown as.
pub open spec fn bare_text(value: BareValueView) -> Seq<char> {
    match value {
        BareValueView::Integer(n) => signed_decimal_text(n),
        BareValueView::Decimal(t) => t,
        BareValueView::Text(t) => t,
        BareValueView::Token(t) => t,
        BareValueView::ByteSequence(b) => base64_text(b),
        BareValueView::Boolean(b) => if b {
            "true"@
        } else {
            "false"@
        },
        BareValueView::Date(n) => seq!['@'] + signed_decimal_text(n),
        BareValueView::DisplayText(t) => t,
    }
}

/// The texts of `values`, with `", "` between them.
pub open spec fn joined_text(values: Seq<BareValueView>) -> Seq<char>
    decreases values.len(),
{
    if values.len() == 0 {
        Seq::empty()
    } else if values.len() == 1 {
        bare_text(values[0])
    } else {
        joined_text(values.drop_last()) + ", "@ + bare_text(values.last())
    }
}

/// `fields` with each parameter written to it under its key, in order.
pub open spec fn with_params(
    fields: Map<Seq<char>, Seq<char>>,
    params: Seq<(Seq<char>, BareValueView)>,
) -> Map<Seq<char>, Seq<char>>
    decreases params.len(),
{
    if params.len() == 0 {
        fields
    } else {
        with_params(fields, params.drop_last()).insert(
            params.last().0,
            bare_text(params.last().1),
        )
    }
}

/// `fields` with one entry written to it under `key`: first its value, then
/// each of its parameters under the parameter's own key.
pub open spec fn with_entry(
    fields: Map<Seq<char>, Seq<char>>,
    key: Seq<char>,
    entry: EntryView,
) -> Map<Seq<char>, Seq<char>> {
    with_params(fields.insert(key, joined_text(entry.values)), entry.params)
}

/// The fields that a dictionary gives.
pub open spec fn dictionary_fields(members: Seq<(Seq<char>, EntryView)>) -> Map<
    Seq<char>,
    Seq<char>,
>
    decreases members.len(),
{
    if members.len() == 0 {
        Map::empty()
    } else {
        with_entry(dictionary_fields(members.drop_last()), members.last().0, members.last().1)
    }
}

/// The key that member `index` of a list is filed under.
pub open spec fn item_key(index: nat) -> Seq<char> {
    "item"@ + decimal_text(index)
}

/// The fields that a list gives: each member under `item` and its position.
/// The parameters of the members are not kept.
pub open spec fn list_fields(entries: Seq<EntryView>) -> Map<Seq<char>, Seq<char>>
    decreases entries.len(),
{
    if entries.len() == 0 {
        Map::empty()
    } else {
        list_fields(entries.drop_last()).insert(
            item_key((entries.len() - 1) as nat),
            joined_text(entries.last().values),
        )
    }
}

/// Whether a list is more than one plain value: it has several members, or
/// one that is an inner list or carries parameters.
pub open spec fn list_has_structure(entries: Seq<EntryView>) -> bool {
    entries.len() > 1 || exists|i: int|
        0 <= i < entries.len() && ((#[trigger] entries[i]).inner_list || entries[i].params.len()
            > 0)
}

/// The fields that a single item gives: its value under `value`, then its parameters.
pub open spec fn item_fields(entry: EntryView) -> Map<Seq<char>, Seq<char>> {
    with_entry(Map::empty(), "value"@, entry)
}

/// Whether a dictionary is one bare word: a single member that is an item
/// without parameters and holds the `true` that a key without a value
/// stands for.
pub open spec fn is_bare_word(members: Seq<(Seq<char>, EntryView)>) -> bool {
    &&& members.len() == 1
    &&& !members[0].1.inner_list
    &&& members[0].1.values == seq![BareValueView::Boolean(true)]
    &&& members[0].1.params.len() == 0
}

/// What a line gives, given what `sfv` read it as. The first of these that
/// applies decides: a dictionary with at least one member, unless the line
/// is one bare word without an `=` (a plain word is no structured field); a
/// list with structure; an item with parameters; the older semicolon syntax.
pub open spec fn structured_fields(
    dictionary: Option<Seq<(Seq<char>, EntryView)>>,
    list: Option<Seq<EntryView>>,
    item: Option<EntryView>,
    input: Seq<char>,
) -> Option<Map<Seq<char>, Seq<char>>> {
    if dictionary is Some && dictionary.unwrap().len() > 0 && !(is_bare_word(dictionary.unwrap())
        && !input.contains('=')) {
        Some(dictionary_fields(dictionary.unwrap()))
    } else if list is Some && list_has_structure(list.unwrap()) {
        Some(list_fields(list.unwrap()))
    } else if item is Some && item.unwrap().params.len() > 0 {
        Some(item_fields(item.unwrap()))
    } else {
        legacy_structured_fields(input)
    }
}

/// The text a bare value is shown as.
pub fn bare_item_to_string(item: &BareValue) -> (text: String)
    ensures
        text@ == bare_text(item@),
{
    match item {
        BareValue::Integer(n) => {
            let mut text = String::new();
            push_signed_decimal(&mut text, *n);
            assert(text@ =~= signed_decimal_text(*n as int));
            text
        },
        BareValue::Decimal(t) => t.clone(),
        BareValue::Text(t) => t.clone(),
        BareValue::Token(t) => t.clone(),
        BareValue::ByteSequence(b) => base64_encode(b.as_slice()),
        BareValue::Boolean(b) => if *b {
            "true".to_owned()
        } else {
            "false".to_owned()
        },
        BareValue::Date(n) => {
            let mut text = String::new();
            text.push('@');
            push_signed_decimal(&mut text, *n);
            assert(text@ =~= seq!['@'] + signed_decimal_text(*n as int));
            text
        },
        BareValue::DisplayText(t) => t.clone(),
    }
}

/// The texts of the bare values of `entry`, with `", "` between them.
pub fn entry_text(entry: &Entry) -> (text: String)
    ensures
        text@ == joined_text(entry@.values),
{
    let mut text = String::new();
    let mut i: usize = 0;
    while i < entry.values.len()
        invariant
            i <= entry.values.len(),
            text@ == joined_text(entry@.values.take(i as int)),
        decreases entry.values.len() - i,
    {
        let ghost before = text@;
        if i > 0 {
            text.append(", ");
        }
        let piece = bare_item_to_string(&entry.values[i]);
        text.append(piece.as_str());
        proof {
            let upto = entry@.values.take(i + 1);
            assert(upto.drop_last() =~= entry@.values.take(i as int));
            assert(upto.last() == entry.values[i as int]@);
            if i == 0 {
                assert(text@ =~= bare_text(upto[0]));
            }
        }
        i += 1;
    }
    proof {
        assert(entry@.values.take(i as int) =~= entry@.values);
    }
    text
}

/// Writes `entry` to `fields` under `key`: its value, then its parameters.
pub fn write_entry(fields: &mut FieldMap<String>, key: String, entry: &Entry)
    requires
        old(fields).wf(),
    ensures
        final(fields).wf(),
        final(fields)@ == with_entry(old(fields)@, key@, entry@),
{
    fields.insert(key, entry_text(entry));
    let ghost base = fields@;
    let mut i: usize = 0;
    while i < entry.params.len()
        invariant
            i <= entry.params.len(),
            fields.wf(),
            fields@ == with_params(base, entry@.params.take(i as int)),
        decreases entry.params.len() - i,
    {
        let param = &entry.params[i];
        fields.insert(param.key.clone(), bare_item_to_string(&param.value));
        proof {
            let upto = entry@.params.take(i + 1);
            assert(upto.drop_last() =~= entry@.params.take(i as int));
            assert(upto.last() == param@);
        }
        i += 1;
    }
    proof {
        assert(entry@.params.take(i as int) =~= entry@.params);
    }
}

/// The fields that a dictionary gives.
pub fn fields_from_dictionary(members: &Vec<Member>) -> (fields: FieldMap<String>)
    ensures
        fields.wf(),
        fields@ == dictionary_fields(dictionary_view(members@)),
{
    let mut fields: FieldMap<String> = FieldMap::new();
    let mut i: usize = 0;
    while i < members.len()
        invariant
            i <= members.len(),
            fields.wf(),
            fields@ == dictionary_fields(dictionary_view(members@).take(i as int)),
        decreases members.len() - i,
    {
        let member = &members[i];
        write_entry(&mut fields, member.key.clone(), &member.entry);
        proof {
            let upto = dictionary_view(members@).take(i + 1);
            assert(upto.drop_last() =~= dictionary_view(members@).take(i as int));
            assert(upto.last() == member@);
        }
        i += 1;
    }
    proof {
        assert(dictionary_view(members@).take(i as int) =~= dictionary_view(members@));
    }
    fields
}

/// Whether a dictionary is one bare word.
pub fn is_one_bare_word(members: &Vec<Member>) -> (bare: bool)
    ensures
        bare == is_bare_word(dictionary_view(members@)),
{
    if members.len() != 1 {
        return false;
    }
    let entry = &members[0].entry;
    proof {
        assert(dictionary_view(members@)[0] == members[0]@);
    }
    if entry.inner_list || entry.params.len() != 0 || entry.values.len() != 1 {
        proof {
            if entry.values.len() != 1 {
                assert(entry@.values.len() != seq![BareValueView::Boolean(true)].len());
            }
        }
        return false;
    }
    let holds_true = match &entry.values[0] {
        BareValue::Boolean(b) => *b,
        _ => false,
    };
    proof {
        assert(entry@.values[0] == entry.values[0]@);
        if holds_true {
            assert(entry@.values =~= seq![BareValueView::Boolean(true)]);
        } else {
            assert(seq![BareValueView::Boolean(true)][0] == BareValueView::Boolean(true));
        }
    }
    holds_true
}

/// Whether a list is more than one plain value.
pub fn has_structure(entries: &Vec<Entry>) -> (structured: bool)
    ensures
        structured == list_has_structure(entries_view(entries@)),
{
    if entries.len() > 1 {
        return true;
    }
    let mut i: usize = 0;
    while i < entries.len()
        invariant
            i <= entries.len(),
            entries.len() <= 1,
            forall|j: int|
                0 <= j < i ==> !((#[trigger] entries_view(entries@)[j]).inner_list || entries_view(
                    entries@,
                )[j].params.len() > 0),
        decreases entries.len() - i,
    {
        if entries[i].inner_list || entries[i].params.len() > 0 {
            assert(entries_view(entries@)[i as int] == entries[i as int]@);
            return true;
        }
        assert(entries_view(entries@)[i as int] == entries[i as int]@);
        i += 1;
    }
    false
}

/// The fields that a list gives.
pub fn fields_from_list(entries: &Vec<Entry>) -> (fields: FieldMap<String>)
    ensures
        fields.wf(),
        fields@ == list_fields(entries_view(entries@)),
{
    let mut fields: FieldMap<String> = FieldMap::new();
    let mut i: usize = 0;
    while i < entries.len()
        invariant
            i <= entries.len(),
            fields.wf(),
            fields@ == list_fields(entries_view(entries@).take(i as int)),
        decreases entries.len() - i,
    {
        let mut key = "item".to_owned();
        push_decimal(&mut key, i as u64);
        fields.insert(key, entry_text(&entries[i]));
        proof {
            let upto = entries_view(entries@).take(i + 1);
            assert(upto.drop_last() =~= entries_view(entries@).take(i as int));
            assert(upto.last() == entries[i as int]@);
        }
        i += 1;
    }
    proof {
        assert(entries_view(entries@).take(i as int) =~= entries_view(entries@));
    }
    fields
}

/// The fields that a single item gives.
pub fn fields_from_item(entry: &Entry) -> (fields: FieldMap<String>)
    ensures
        fields.wf(),
        fields@ == item_fields(entry@),
{
    let mut fields: FieldMap<String> = FieldMap::new();
    write_entry(&mut fields, "value".to_owned(), entry);
    fields
}

/// Reads a line as a structured field value: as a dictionary, else as a list
/// with structure, else as an item with parameters, else in the older
/// semicolon syntax. A plain value alone, or one bare word without an `=`,
/// is not taken for a structured field.
pub fn parse_structured_headers(input: &str) -> (fields: Option<FieldMap<String>>)
    ensures
        match fields {
            Some(map) => map.wf() && structured_fields(
                sfv_dictionary_of(input@),
                sfv_list_of(input@),
                sfv_item_of(input@),
                input@,
            ) == Some(map@),
            None => structured_fields(
                sfv_dictionary_of(input@),
                sfv_list_of(input@),
                sfv_item_of(input@),
                input@,
            ) is None,
        },
{
    if let Some(parsed) = read_sfv_dictionary(input) {
        let members = members_from(&parsed);
        if members.len() > 0 && !(is_one_bare_word(&members) && !has_equals(input)) {
            return Some(fields_from_dictionary(&members));
        }
    }
    if let Some(parsed) = read_sfv_list(input) {
        let entries = entries_from(&parsed);
        if has_structure(&entries) {
            return Some(fields_from_list(&entries));
        }
    }
    if let Some(parsed) = read_sfv_item(input) {
        let entry = entry_from(&parsed);
        if entry.params.len() > 0 {
            return Some(fields_from_item(&entry));
        }
    }
    parse_legacy_structured_headers(input)
}

} // verus!
