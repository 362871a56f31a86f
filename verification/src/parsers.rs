//! Turning one submitted line into labelled, coloured fields.

use crate::clock::unix_millis_now;
use crate::color_utils::{color_for_string, color_text};
use crate::fields::FieldMap;
use crate::json_fields::{json_fields_of, json_object_of, parse_json, JsonValueView};
use crate::models::{FieldData, FieldDataView};
use crate::structured_headers::{
    parse_structured_headers, sfv_dictionary_of, sfv_item_of, sfv_list_of, structured_fields,
};
use vstd::prelude::*;

verus! {

/// The fields of `data`, each with the colour of its key.
pub open spec fn colored_fields(data: Map<Seq<char>, Seq<char>>) -> Map<Seq<char>, FieldDataView> {
    Map::new(
        |key: Seq<char>| data.contains_key(key),
        |key: Seq<char>| FieldDataView { value: data[key], color: color_text(key) },
    )
}

/// What a line was recognised as, and the fields it gave.
pub struct Classified {
    /// The name of the syntax that matched, if one did.
    pub parser: Option<Seq<char>>,
    /// The fields, empty when no syntax matched.
    pub fields: Map<Seq<char>, FieldDataView>,
}

/// How a line is classified, given what each syntax made of it: JSON comes
/// first, structured fields second, and a line that is neither keeps no
/// label and no fields.
pub open spec fn classify(
    json: Option<Seq<(Seq<char>, JsonValueView)>>,
    structured: Option<Map<Seq<char>, Seq<char>>>,
) -> Classified {
    if json is Some {
        Classified {
            parser: Some("json"@),
            fields: colored_fields(json_fields_of(json.unwrap())),
        }
    } else if structured is Some {
        Classified {
            parser: Some("structuredHeaders"@),
            fields: colored_fields(structured.unwrap()),
        }
    } else {
        Classified { parser: None, fields: Map::empty() }
    }
}

/// How the line `input` is classified.
pub open spec fn parsed_line(input: Seq<char>) -> Classified {
    classify(
        json_object_of(input),
        structured_fields(
            sfv_dictionary_of(input),
            sfv_list_of(input),
            sfv_item_of(input),
            input,
        ),
    )
}

/// The label of a parsed event as a sequence of characters.
pub open spec fn label_view(label: Option<String>) -> Option<Seq<char>> {
    match label {
        Some(text) => Some(text@),
        None => None,
    }
}

/// Gives every field the colour of its key.
pub fn create_fields(data: FieldMap<String>) -> (fields: FieldMap<FieldData>)
    requires
        data.wf(),
    ensures
        fields.wf(),
        fields@ == colored_fields(data@),
{
    let mut fields: FieldMap<FieldData> = FieldMap::new();
    let n = data.len();
    let mut i: usize = 0;
    proof {
        data.lemma_key_order();
    }
    while i < n
        invariant
            i <= n,
            n == data.key_order().len(),
            data.wf(),
            data.key_order().no_duplicates(),
            fields.wf(),
            fields.key_order() == data.key_order().take(i as int),
            forall|key: Seq<char>| #[trigger]
                fields@.contains_key(key) ==> fields@[key] == (FieldDataView {
                    value: data@[key],
                    color: color_text(key),
                }),
        decreases n - i,
    {
        let key = data.key_at(i);
        let value = data.value_at(i);
        let ghost before = fields@;
        proof {
            fields.lemma_key_order();
            if fields@.contains_key(key@) {
                assert(fields.key_order().contains(key@));
                let j = fields.key_order().index_of(key@);
                assert(data.key_order().take(i as int)[j] == key@);
                assert(data.key_order()[j] == key@);
                assert(data.key_order()[i as int] == key@);
            }
            assert(!fields@.contains_key(key@));
        }
        let color = color_for_string(key.as_str());
        fields.insert(key.clone(), FieldData { value: value.clone(), color });
        proof {
            assert(data.key_order().take(i + 1) =~= data.key_order().take(i as int).push(key@));
            assert forall|k: Seq<char>| #[trigger] fields@.contains_key(k) implies fields@[k] == (
            FieldDataView { value: data@[k], color: color_text(k) }) by {
                if k != key@ {
                    assert(before.contains_key(k));
                }
            }
        }
        i += 1;
    }
    proof {
        fields.lemma_key_order();
        data.lemma_key_order();
        assert(data.key_order().take(i as int) =~= data.key_order());
        assert forall|k: Seq<char>| fields@.contains_key(k) <==> data@.contains_key(k) by {
            assert(fields.key_order().contains(k) <==> fields@.contains_key(k));
            assert(data.key_order().contains(k) <==> data@.contains_key(k));
        }
        assert(fields@ =~= colored_fields(data@));
    }
    fields
}

/// One line on its way through the parsers.
pub struct ParsedEvent {
    /// The line as it was submitted.
    pub input_string: String,
    /// The name of the syntax that matched, once `parse` has run and one did.
    pub parser: Option<String>,
    /// The fields that the line gave.
    pub fields: FieldMap<FieldData>,
    /// When the line was taken in, in milliseconds since the Unix epoch.
    pub time: i64,
}

impl ParsedEvent {
    /// A line taken in now and not parsed yet.
    pub fn new(input_string: String) -> (event: ParsedEvent)
        ensures
            event.input_string == input_string,
            event.parser is None,
            event.fields.wf(),
            event.fields@ == Map::<Seq<char>, FieldDataView>::empty(),
    {
        ParsedEvent::at(input_string, unix_millis_now())
    }

    /// A line taken in at `time` and not parsed yet.
    pub fn at(input_string: String, time: i64) -> (event: ParsedEvent)
        ensures
            event.input_string == input_string,
            event.time == time,
            event.parser is None,
            event.fields.wf(),
            event.fields@ == Map::<Seq<char>, FieldDataView>::empty(),
    {
        ParsedEvent { input_string, parser: None, fields: FieldMap::new(), time }
    }

    /// Classifies the line: as JSON if it is a JSON object, else as a
    /// structured field value, else as plain text with no label and no fields.
    pub fn parse(&mut self)
        ensures
            final(self).input_string == old(self).input_string,
            final(self).time == old(self).time,
            final(self).fields.wf(),
            label_view(final(self).parser) == parsed_line(old(self).input_string@).parser,
            final(self).fields@ == parsed_line(old(self).input_string@).fields,
    {
        if let Some(data) = parse_json(self.input_string.as_str()) {
            self.parser = Some("json".to_owned());
            self.fields = create_fields(data);
            return;
        }
        if let Some(data) = parse_structured_headers(self.input_string.as_str()) {
            self.parser = Some("structuredHeaders".to_owned());
            self.fields = create_fields(data);
            return;
        }
        self.parser = None;
        self.fields = FieldMap::new();
    }
}

} // verus!
