//! API parameter schemas and query validation.
//!
//! A schema describes one parameter value: a boolean, a bounded integer, a
//! string with optional length bounds and format, an array of a schema, or
//! an object of named properties.  Query strings decode to key/value
//! pairs; validation turns them into typed values or collects one error
//! per offending parameter.

use vstd::prelude::*;
use vstd::string::StrSliceExecFns;
use crate::pull::chars_eq;

verus! {

/// What str::parse reads from a string as a 64-bit signed integer: an
/// optional sign and decimal digits, nothing on malformed input or
/// overflow.
pub uninterp spec fn parse_i64_of(s: Seq<char>) -> Option<i64>;

/// Relies on str::parse for i64: the result depends on the characters
/// alone.
#[verifier::external_body]
fn parse_i64(s: &str) -> (r: Option<i64>)
    ensures
        r == parse_i64_of(s@),
{
    match s.parse::<i64>() {
        Ok(v) => Some(v),
        Err(_) => None,
    }
}

/// What a regular expression matches: whether the pattern finds a match
/// anywhere in the text.
pub uninterp spec fn regex_match_of(pattern: Seq<char>, text: Seq<char>) -> bool;

#[verifier::external_type_specification]
#[verifier::external_body]
pub struct ExRegex(regex::Regex);

/// A compiled regular expression, carrying the pattern it was built from.
pub struct Pattern {
    re: regex::Regex,
    src: Ghost<Seq<char>>,
}

impl Pattern {
    /// The pattern source.
    pub closed spec fn spec_src(&self) -> Seq<char> {
        self.src@
    }

    /// Relies on regex::Regex::new: a compiled form of exactly this
    /// pattern, or a parse failure.  The ghost source field is erased at
    /// run time; the contract is what pins it to the pattern.
    #[verifier::external_body]
    pub fn new(pattern: &str) -> (r: Result<Pattern, ()>)
        ensures
            r matches Ok(p) ==> p.spec_src() == pattern@,
    {
        match regex::Regex::new(pattern) {
            Ok(re) => Ok(Pattern { re, src: Ghost(Seq::empty()) }),
            Err(_) => Err(()),
        }
    }

    /// Relies on regex::Regex::is_match: whether the pattern matches
    /// anywhere in the text, a function of pattern and text alone.
    #[verifier::external_body]
    pub fn is_match(&self, text: &str) -> (r: bool)
        ensures
            r == regex_match_of(self.spec_src(), text@),
    {
        self.re.is_match(text)
    }
}

/// A list of validation failures, one per offending parameter.
pub struct ParameterError {
    error_list: Vec<String>,
}

impl ParameterError {
    pub closed spec fn spec_len(&self) -> nat {
        self.error_list@.len()
    }

    pub fn new() -> (r: ParameterError)
        ensures
            r.spec_len() == 0,
    {
        ParameterError { error_list: Vec::new() }
    }

    pub fn push(&mut self, value: String)
        ensures
            final(self).spec_len() == old(self).spec_len() + 1,
    {
        self.error_list.push(value);
    }

    pub fn len(&self) -> (r: usize)
        ensures
            r == self.spec_len(),
    {
        self.error_list.len()
    }
}

pub struct BooleanSchema {
    pub description: String,
    pub default: Option<bool>,
}

impl BooleanSchema {
    pub fn new(description: &str) -> (r: BooleanSchema)
        ensures
            r.default is None,
    {
        BooleanSchema { description: description.to_owned(), default: None }
    }

    pub fn default(self, default: bool) -> (r: BooleanSchema)
        ensures
            r.default == Some(default),
    {
        BooleanSchema { description: self.description, default: Some(default) }
    }
}

pub struct IntegerSchema {
    pub description: String,
    pub minimum: Option<i64>,
    pub maximum: Option<i64>,
    pub default: Option<i64>,
}

impl IntegerSchema {
    pub fn new(description: &str) -> (r: IntegerSchema)
        ensures
            r.minimum is None && r.maximum is None && r.default is None,
    {
        IntegerSchema {
            description: description.to_owned(),
            minimum: None,
            maximum: None,
            default: None,
        }
    }

    pub fn default(self, default: i64) -> (r: IntegerSchema)
        ensures
            r.default == Some(default),
            r.minimum == self.minimum,
            r.maximum == self.maximum,
    {
        IntegerSchema {
            description: self.description,
            minimum: self.minimum,
            maximum: self.maximum,
            default: Some(default),
        }
    }

    pub fn minimum(self, minimum: i64) -> (r: IntegerSchema)
        ensures
            r.minimum == Some(minimum),
            r.maximum == self.maximum,
            r.default == self.default,
    {
        IntegerSchema {
            description: self.description,
            minimum: Some(minimum),
            maximum: self.maximum,
            default: self.default,
        }
    }

    pub fn maximum(self, maximum: i64) -> (r: IntegerSchema)
        ensures
            r.maximum == Some(maximum),
            r.minimum == self.minimum,
            r.default == self.default,
    {
        IntegerSchema {
            description: self.description,
            minimum: self.minimum,
            maximum: Some(maximum),
            default: self.default,
        }
    }
}

/// String value formats: a fixed enumeration, or a regular expression.
pub enum ApiStringFormat {
    Enum(Vec<String>),
    Pattern(Pattern),
}

pub struct StringSchema {
    pub description: String,
    pub default: Option<String>,
    pub min_length: Option<usize>,
    pub max_length: Option<usize>,
    pub format: Option<ApiStringFormat>,
}

impl StringSchema {
    pub fn new(description: &str) -> (r: StringSchema)
        ensures
            r.default is None && r.min_length is None && r.max_length is None && r.format is None,
    {
        StringSchema {
            description: description.to_owned(),
            default: None,
            min_length: None,
            max_length: None,
            format: None,
        }
    }

    pub fn default(self, text: &str) -> (r: StringSchema)
        ensures
            r.default matches Some(d) && d@ == text@,
            r.min_length == self.min_length,
            r.max_length == self.max_length,
            r.format == self.format,
    {
        StringSchema {
            description: self.description,
            default: Some(text.to_owned()),
            min_length: self.min_length,
            max_length: self.max_length,
            format: self.format,
        }
    }

    pub fn format(self, format: ApiStringFormat) -> (r: StringSchema)
        ensures
            r.min_length == self.min_length,
            r.max_length == self.max_length,
            r.format == Some(format),
    {
        StringSchema {
            description: self.description,
            default: self.default,
            min_length: self.min_length,
            max_length: self.max_length,
            format: Some(format),
        }
    }

    pub fn min_length(self, min_length: usize) -> (r: StringSchema)
        ensures
            r.min_length == Some(min_length),
            r.max_length == self.max_length,
            r.format == self.format,
    {
        StringSchema {
            description: self.description,
            default: self.default,
            min_length: Some(min_length),
            max_length: self.max_length,
            format: self.format,
        }
    }

    pub fn max_length(self, max_length: usize) -> (r: StringSchema)
        ensures
            r.min_length == self.min_length,
            r.max_length == Some(max_length),
            r.format == self.format,
    {
        StringSchema {
            description: self.description,
            default: self.default,
            min_length: self.min_length,
            max_length: Some(max_length),
            format: self.format,
        }
    }
}

pub struct ArraySchema {
    pub description: String,
    pub items: Box<Schema>,
    pub min_length: Option<usize>,
    pub max_length: Option<usize>,
}

impl ArraySchema {
    pub fn new(description: &str, item_schema: Schema) -> (r: ArraySchema)
        ensures
            r.items == item_schema,
    {
        ArraySchema {
            description: description.to_owned(),
            items: Box::new(item_schema),
            min_length: None,
            max_length: None,
        }
    }
}

/// One named property: its name, whether it is optional, and its schema.
pub struct SchemaProperty {
    pub name: String,
    pub optional: bool,
    pub schema: Schema,
}

pub struct ObjectSchema {
    pub description: String,
    pub additional_properties: bool,
    pub properties: Vec<SchemaProperty>,
}

impl ObjectSchema {
    pub fn new(description: &str) -> (r: ObjectSchema)
        ensures
            !r.additional_properties,
            r.properties@.len() == 0,
    {
        ObjectSchema {
            description: description.to_owned(),
            additional_properties: false,
            properties: Vec::new(),
        }
    }

    pub fn additional_properties(self, additional_properties: bool) -> (r: ObjectSchema)
        ensures
            r.additional_properties == additional_properties,
            r.properties == self.properties,
    {
        ObjectSchema {
            description: self.description,
            additional_properties,
            properties: self.properties,
        }
    }

    pub fn required(self, name: &str, schema: Schema) -> (r: ObjectSchema)
        ensures
            r.properties@.len() == self.properties@.len() + 1,
            r.properties@.take(self.properties@.len() as int) == self.properties@,
            r.properties@.last().name@ == name@,
            !r.properties@.last().optional,
            r.properties@.last().schema == schema,
            r.additional_properties == self.additional_properties,
    {
        let ghost before = self.properties@;
        let mut properties = self.properties;
        properties.push(SchemaProperty { name: name.to_owned(), optional: false, schema });
        proof {
            assert(properties@.take(before.len() as int) =~= before);
        }
        ObjectSchema {
            description: self.description,
            additional_properties: self.additional_properties,
            properties,
        }
    }

    pub fn optional(self, name: &str, schema: Schema) -> (r: ObjectSchema)
        ensures
            r.properties@.len() == self.properties@.len() + 1,
            r.properties@.take(self.properties@.len() as int) == self.properties@,
            r.properties@.last().name@ == name@,
            r.properties@.last().optional,
            r.properties@.last().schema == schema,
            r.additional_properties == self.additional_properties,
    {
        let ghost before = self.properties@;
        let mut properties = self.properties;
        properties.push(SchemaProperty { name: name.to_owned(), optional: true, schema });
        proof {
            assert(properties@.take(before.len() as int) =~= before);
        }
        ObjectSchema {
            description: self.description,
            additional_properties: self.additional_properties,
            properties,
        }
    }
}

pub enum Schema {
    Null,
    Boolean(BooleanSchema),
    Integer(IntegerSchema),
    String(StringSchema),
    Object(ObjectSchema),
    Array(ArraySchema),
}

/// A validated parameter value.
pub enum ParamValue {
    Bool(bool),
    Integer(i64),
    String(String),
    Array(Vec<ParamValue>),
}

/// What a boolean parameter string means, compared without regard to
/// ASCII case: the usual spellings of true and false, nothing else.
pub open spec fn spec_parse_boolean(s: Seq<char>) -> Option<bool> {
    let l = spec_ascii_lower_chars(s);
    if l == "1"@ || l == "on"@ || l == "yes"@ || l == "true"@ {
        Some(true)
    } else if l == "0"@ || l == "off"@ || l == "no"@ || l == "false"@ {
        Some(false)
    } else {
        None
    }
}

/// Lower-case the ASCII letters of a string.
pub open spec fn spec_ascii_lower_chars(s: Seq<char>) -> Seq<char> {
    s.map_values(|c: char| spec_ascii_lower(c))
}

pub open spec fn spec_ascii_lower(c: char) -> char {
    if 'A' <= c <= 'Z' {
        ((c as u32) + 32) as char
    } else {
        c
    }
}

fn ascii_lower(c: char) -> (r: char)
    ensures
        r == spec_ascii_lower(c),
{
    match c {
        'A' => 'a',
        'B' => 'b',
        'C' => 'c',
        'D' => 'd',
        'E' => 'e',
        'F' => 'f',
        'G' => 'g',
        'H' => 'h',
        'I' => 'i',
        'J' => 'j',
        'K' => 'k',
        'L' => 'l',
        'M' => 'm',
        'N' => 'n',
        'O' => 'o',
        'P' => 'p',
        'Q' => 'q',
        'R' => 'r',
        'S' => 's',
        'T' => 't',
        'U' => 'u',
        'V' => 'v',
        'W' => 'w',
        'X' => 'x',
        'Y' => 'y',
        'Z' => 'z',
        _ => c,
    }
}

/// Parse a boolean parameter.
pub fn parse_boolean(value_str: &str) -> (r: Result<bool, String>)
    ensures
        r matches Ok(b) ==> spec_parse_boolean(value_str@) == Some(b),
        r is Err <==> spec_parse_boolean(value_str@) is None,
{
    proof {
        reveal_strlit("1");
        reveal_strlit("on");
        reveal_strlit("yes");
        reveal_strlit("true");
        reveal_strlit("0");
        reveal_strlit("off");
        reveal_strlit("no");
        reveal_strlit("false");
        reveal_strlit("Unable to parse boolean option.");
    }
    let n = value_str.unicode_len();
    let mut lower = String::new();
    let mut i: usize = 0;
    while i < n
        invariant
            n == value_str@.len(),
            i <= n,
            lower@ == spec_ascii_lower_chars(value_str@).take(i as int),
        decreases n - i,
    {
        let c = ascii_lower(value_str.get_char(i));
        let mut one = String::new();
        push_char(&mut one, c);
        lower.append(one.as_str());
        proof {
            assert(lower@ =~= spec_ascii_lower_chars(value_str@).take(i + 1));
        }
        i = i + 1;
    }
    proof {
        assert(spec_ascii_lower_chars(value_str@).take(n as int) =~= spec_ascii_lower_chars(
            value_str@,
        ));
    }
    let l = lower.as_str();
    if chars_eq(l, "1") || chars_eq(l, "on") || chars_eq(l, "yes") || chars_eq(l, "true") {
        Ok(true)
    } else if chars_eq(l, "0") || chars_eq(l, "off") || chars_eq(l, "no") || chars_eq(
        l,
        "false",
    ) {
        Ok(false)
    } else {
        Err("Unable to parse boolean option.".to_owned())
    }
}

/// Relies on String::push: appends exactly one character.
#[verifier::external_body]
fn push_char(s: &mut String, c: char)
    ensures
        final(s)@ == old(s)@.push(c),
{
    s.push(c);
}

/// Whether a string value satisfies the string schema: within the length
/// bounds and, when a format is set, in the enumeration or matched by the
/// pattern.
pub open spec fn spec_string_ok(schema: &StringSchema, v: Seq<char>) -> bool {
    &&& match schema.min_length {
        Some(min) => v.len() >= min,
        None => true,
    }
    &&& match schema.max_length {
        Some(max) => v.len() <= max,
        None => true,
    }
    &&& match schema.format {
        None => true,
        Some(ApiStringFormat::Pattern(ref p)) => regex_match_of(p.spec_src(), v),
        Some(ApiStringFormat::Enum(ref list)) => (exists|i: int|
            0 <= i < list@.len() && list@[i]@ == v),
    }
}

/// What a simple (non-object, non-array) schema accepts for a value
/// string.
pub open spec fn spec_simple_ok(schema: &Schema, v: Seq<char>) -> bool {
    match schema {
        Schema::Boolean(_) => spec_parse_boolean(v) is Some,
        Schema::Integer(ref s) => match parse_i64_of(v) {
            Some(n) => (match s.minimum {
                Some(min) => n >= min,
                None => true,
            }) && (match s.maximum {
                Some(max) => n <= max,
                None => true,
            }),
            None => false,
        },
        Schema::String(ref s) => spec_string_ok(s, v),
        _ => false,
    }
}

/// Validate one value string against a simple schema.
pub fn parse_simple_value(value_str: &str, schema: &Schema) -> (r: Result<ParamValue, String>)
    ensures
        r is Ok <==> spec_simple_ok(schema, value_str@),
        r matches Ok(pv) ==> match pv {
            ParamValue::Bool(b) => spec_parse_boolean(value_str@) == Some(b),
            ParamValue::Integer(n) => parse_i64_of(value_str@) == Some(n),
            ParamValue::String(s) => s@ == value_str@,
            ParamValue::Array(_) => false,
        },
        r matches Ok(pv) ==> match schema {
            Schema::Boolean(_) => pv is Bool,
            Schema::Integer(_) => pv is Integer,
            Schema::String(_) => pv is String,
            _ => false,
        },
{
    proof {
        reveal_strlit("internal error - found Null schema.");
        reveal_strlit("value out of integer range");
        reveal_strlit("Unable to parse integer value.");
        reveal_strlit("value does not match the length bounds");
        reveal_strlit("value does not match the regex pattern");
        reveal_strlit("value is not defined in the enumeration.");
        reveal_strlit("unable to parse complex (sub) objects.");
    }
    match schema {
        Schema::Null => Err("internal error - found Null schema.".to_owned()),
        Schema::Boolean(_) => {
            match parse_boolean(value_str) {
                Ok(b) => Ok(ParamValue::Bool(b)),
                Err(e) => Err(e),
            }
        },
        Schema::Integer(s) => {
            match parse_i64(value_str) {
                None => Err("Unable to parse integer value.".to_owned()),
                Some(n) => {
                    if let Some(min) = s.minimum {
                        if n < min {
                            return Err("value out of integer range".to_owned());
                        }
                    }
                    if let Some(max) = s.maximum {
                        if n > max {
                            return Err("value out of integer range".to_owned());
                        }
                    }
                    Ok(ParamValue::Integer(n))
                },
            }
        },
        Schema::String(s) => {
            let char_count = value_str.unicode_len();
            if let Some(min) = s.min_length {
                if char_count < min {
                    return Err("value does not match the length bounds".to_owned());
                }
            }
            if let Some(max) = s.max_length {
                if char_count > max {
                    return Err("value does not match the length bounds".to_owned());
                }
            }
            match s.format {
                None => {},
                Some(ApiStringFormat::Pattern(ref p)) => {
                    if !p.is_match(value_str) {
                        return Err("value does not match the regex pattern".to_owned());
                    }
                },
                Some(ApiStringFormat::Enum(ref list)) => {
                    let mut found = false;
                    let mut i: usize = 0;
                    while i < list.len()
                        invariant
                            i <= list@.len(),
                            found <==> (exists|j: int|
                                0 <= j < i && list@[j]@ == value_str@),
                        decreases list@.len() - i,
                    {
                        if chars_eq(list[i].as_str(), value_str) {
                            proof {
                                assert(list@[i as int]@ == value_str@);
                            }
                            found = true;
                        }
                        i = i + 1;
                    }
                    if !found {
                        return Err("value is not defined in the enumeration.".to_owned());
                    }
                },
            }
            Ok(ParamValue::String(value_str.to_owned()))
        },
        _ => Err("unable to parse complex (sub) objects.".to_owned()),
    }
}

/// Decoded key/value pairs of a query string.
pub type ParamPairs = Seq<(Seq<char>, Seq<char>)>;

/// What form-urlencoded decoding reads from a query string.
pub uninterp spec fn form_decode_of(q: Seq<char>) -> ParamPairs;

/// Relies on form_urlencoded::parse: the pairs depend on the query string
/// alone.
#[verifier::external_body]
pub fn form_urldecode(query: &str) -> (r: Vec<(String, String)>)
    ensures
        r@.map_values(|p: (String, String)| (p.0@, p.1@)) == form_decode_of(query@),
{
    url::form_urlencoded::parse(query.as_bytes()).into_owned().collect()
}

/// The first property of the schema with this name.
pub open spec fn spec_find_prop(props: Seq<SchemaProperty>, key: Seq<char>) -> Option<int>
    decreases props.len(),
{
    if props.len() == 0 {
        None
    } else if props[0].name@ == key {
        Some(0int)
    } else {
        match spec_find_prop(props.skip(1), key) {
            Some(m) => Some(m + 1),
            None => None,
        }
    }
}

proof fn lemma_find_prop_at(props: Seq<SchemaProperty>, key: Seq<char>, i: int)
    requires
        0 <= i <= props.len(),
        forall|j: int| 0 <= j < i ==> props[j].name@ != key,
        i < props.len() ==> props[i].name@ == key,
    ensures
        spec_find_prop(props, key) == if i < props.len() {
            Some(i)
        } else {
            None::<int>
        },
    decreases props.len(),
{
    if props.len() > 0 {
        if i == 0 {
        } else {
            assert(props[0].name@ != key);
            assert forall|j: int| 0 <= j < i - 1 implies props.skip(1)[j].name@ != key by {
                assert(props.skip(1)[j] == props[j + 1]);
            }
            if i - 1 < props.skip(1).len() {
                assert(props.skip(1)[i - 1] == props[i]);
            }
            lemma_find_prop_at(props.skip(1), key, i - 1);
        }
    }
}

fn find_property(schema: &ObjectSchema, key: &str) -> (r: Option<usize>)
    ensures
        r matches Some(i) ==> i < schema.properties@.len() && spec_find_prop(
            schema.properties@,
            key@,
        ) == Some(i as int),
        r is None <==> spec_find_prop(schema.properties@, key@) is None,
{
    let mut i: usize = 0;
    while i < schema.properties.len()
        invariant
            i <= schema.properties@.len(),
            forall|j: int| 0 <= j < i ==> schema.properties@[j].name@ != key@,
        decreases schema.properties@.len() - i,
    {
        if chars_eq(schema.properties[i].name.as_str(), key) {
            proof {
                lemma_find_prop_at(schema.properties@, key@, i as int);
            }
            return Some(i);
        }
        i = i + 1;
    }
    proof {
        lemma_find_prop_at(schema.properties@, key@, schema.properties@.len() as int);
    }
    None
}

/// The schema that validates one value of this property: for an array
/// property, the item schema.
pub open spec fn spec_value_schema(p: &SchemaProperty) -> &Schema {
    match p.schema {
        Schema::Array(ref a) => &a.items,
        _ => &p.schema,
    }
}

/// One pair does not validate: its key names a property whose value
/// schema rejects the value, or it names no property and the schema
/// allows none beyond its own.
pub open spec fn spec_pair_invalid(schema: &ObjectSchema, key: Seq<char>, value: Seq<char>) -> bool {
    match spec_find_prop(schema.properties@, key) {
        Some(i) => !spec_simple_ok(spec_value_schema(&schema.properties@[i]), value),
        None => !schema.additional_properties,
    }
}

/// Pairs `i` and `j` repeat the key of a non-array property.
pub open spec fn spec_dup_pair(data: ParamPairs, schema: &ObjectSchema, i: int, j: int) -> bool {
    0 <= i < j < data.len() && data[i].0 == data[j].0 && (match spec_find_prop(
        schema.properties@,
        data[i].0,
    ) {
        Some(p) => !(schema.properties@[p].schema is Array),
        None => false,
    })
}

/// Two pairs repeat a key that names a non-array property.
pub open spec fn spec_has_dup(data: ParamPairs, schema: &ObjectSchema) -> bool {
    exists|i: int, j: int| #[trigger] spec_dup_pair(data, schema, i, j)
}

/// A required property has no pair.
pub open spec fn spec_required_missing(data: ParamPairs, schema: &ObjectSchema) -> bool {
    exists|p: int|
        0 <= p < schema.properties@.len() && !schema.properties@[p].optional && !(exists|i: int|
            0 <= i < data.len() && data[i].0 == schema.properties@[p].name@)
}

/// Some accepted parameter carries this key.
pub open spec fn spec_in_params(params: Seq<(String, ParamValue)>, key: Seq<char>) -> bool {
    exists|m: int| 0 <= m < params.len() && params[m].0@ == key
}

/// The parsed value a validated pair is owed: named properties parse
/// under their value schema, unnamed ones pass through as strings.
pub open spec fn spec_param_matches(
    schema: &ObjectSchema,
    key: Seq<char>,
    value: Seq<char>,
    pv: ParamValue,
) -> bool {
    match spec_find_prop(schema.properties@, key) {
        Some(p) => match spec_value_schema(&schema.properties@[p]) {
            Schema::Boolean(_) => pv matches ParamValue::Bool(b) && spec_parse_boolean(value)
                == Some(b),
            Schema::Integer(_) => pv matches ParamValue::Integer(n) && parse_i64_of(value)
                == Some(n),
            Schema::String(_) => pv matches ParamValue::String(s) && s@ == value,
            _ => false,
        },
        None => pv matches ParamValue::String(s) && s@ == value,
    }
}

fn params_contain(params: &Vec<(String, ParamValue)>, key: &str) -> (r: bool)
    ensures
        r == spec_in_params(params@, key@),
{
    let mut m: usize = 0;
    while m < params.len()
        invariant
            m <= params@.len(),
            forall|j: int| 0 <= j < m ==> params@[j].0@ != key@,
        decreases params@.len() - m,
    {
        if chars_eq(params[m].0.as_str(), key) {
            assert(spec_in_params(params@, key@));
            return true;
        }
        m = m + 1;
    }
    false
}

/// Validate decoded key/value pairs against an object schema.  Accepted
/// values come back one entry per pair — a repeated key of an array
/// property stands for one item each — and the call fails exactly when
/// some pair does not validate, a key of a non-array property repeats, or
/// a required property is missing while checking for required ones.
pub fn parse_parameter_strings(
    data: &Vec<(String, String)>,
    schema: &ObjectSchema,
    test_required: bool,
) -> (r: Result<Vec<(String, ParamValue)>, ParameterError>)
    ensures
        ({
            let pairs = data@.map_values(|p: (String, String)| (p.0@, p.1@));
            r is Ok <==> (!(exists|i: int|
                0 <= i < pairs.len() && spec_pair_invalid(schema, pairs[i].0, pairs[i].1))
                && !spec_has_dup(pairs, schema) && !(test_required && spec_required_missing(
                pairs,
                schema,
            )))
        }),
        ({
            let pairs = data@.map_values(|p: (String, String)| (p.0@, p.1@));
            r matches Ok(params) ==> params@.len() == pairs.len() && (forall|m: int|
                0 <= m < pairs.len() ==> (#[trigger] params@[m]).0@ == pairs[m].0
                    && spec_param_matches(schema, pairs[m].0, pairs[m].1, params@[m].1))
        }),
{
    let ghost pairs = data@.map_values(|p: (String, String)| (p.0@, p.1@));
    proof {
        reveal_strlit("parameter is invalid");
        reveal_strlit("duplicate parameter.");
        reveal_strlit("schema does not allow additional properties.");
        reveal_strlit("parameter is missing and it is not optional.");
    }
    let mut params: Vec<(String, ParamValue)> = Vec::new();
    let mut errors = ParameterError::new();
    let n = data.len();
    let mut i: usize = 0;
    while i < n
        invariant
            n == data@.len(),
            i <= n,
            pairs == data@.map_values(|p: (String, String)| (p.0@, p.1@)),
            pairs.len() == n,
            forall|m: int| 0 <= m < params@.len() ==> (exists|j: int|
                0 <= j < i && pairs[j].0 == #[trigger] params@[m].0@),
            errors.spec_len() > 0 <==> ((exists|j: int|
                0 <= j < i && spec_pair_invalid(schema, pairs[j].0, pairs[j].1)) || spec_has_dup(
                pairs.take(i as int),
                schema,
            )),
            errors.spec_len() == 0 ==> (forall|k: Seq<char>|
                spec_in_params(params@, k) <==> (exists|j: int| 0 <= j < i && pairs[j].0 == k)),
            errors.spec_len() == 0 ==> params@.len() == i && (forall|m: int|
                0 <= m < i ==> (#[trigger] params@[m]).0@ == pairs[m].0 && spec_param_matches(
                    schema,
                    pairs[m].0,
                    pairs[m].1,
                    params@[m].1,
                )),
        decreases n - i,
    {
        let key = data[i].0.as_str();
        let value = data[i].1.as_str();
        proof {
            assert(pairs[i as int] == (data@[i as int].0@, data@[i as int].1@));
            assert(pairs.take(i + 1).drop_last() =~= pairs.take(i as int));
        }
        let ghost pre_errors = errors.spec_len();
        let ghost pre_params = params@;
        match find_property(schema, key) {
            Some(p) => {
                let prop_is_array = match &schema.properties[p].schema {
                    Schema::Array(_) => true,
                    _ => false,
                };
                let value_schema = match &schema.properties[p].schema {
                    Schema::Array(a) => &a.items,
                    other => other,
                };
                assert(value_schema == spec_value_schema(&schema.properties@[p as int]));
                match parse_simple_value(value, value_schema) {
                    Err(_) => {
                        errors.push("parameter is invalid".to_owned());
                        proof {
                            assert(spec_pair_invalid(schema, pairs[i as int].0, pairs[i as int].1));
                        }
                    },
                    Ok(v) => {
                        proof {
                            if pre_errors == 0 {
                                assert(spec_param_matches(
                                    schema,
                                    pairs[i as int].0,
                                    pairs[i as int].1,
                                    v,
                                ));
                            }
                        }
                        if prop_is_array {
                            params.push((key.to_owned(), v));
                        } else {
                            if params_contain(&params, key) {
                                errors.push("duplicate parameter.".to_owned());
                                proof {
                                    if pre_errors == 0 {
                                        let j = choose|j: int|
                                            0 <= j < i && pairs[j].0 == pairs[i as int].0;
                                        assert(spec_dup_pair(
                                            pairs.take(i + 1),
                                            schema,
                                            j,
                                            i as int,
                                        )) by {
                                            assert(pairs.take(i + 1)[j] == pairs[j]);
                                            assert(pairs.take(i + 1)[i as int]
                                                == pairs[i as int]);
                                        }
                                        assert(spec_has_dup(pairs.take(i + 1), schema));
                                    } else {
                                        let m = choose|m: int|
                                            0 <= m < pre_params.len() && pre_params[m].0@
                                                == pairs[i as int].0;
                                        let j = choose|j: int|
                                            0 <= j < i && pairs[j].0 == pre_params[m].0@;
                                        assert(spec_dup_pair(
                                            pairs.take(i + 1),
                                            schema,
                                            j,
                                            i as int,
                                        )) by {
                                            assert(pairs.take(i + 1)[j] == pairs[j]);
                                            assert(pairs.take(i + 1)[i as int]
                                                == pairs[i as int]);
                                        }
                                        assert(spec_has_dup(pairs.take(i + 1), schema));
                                    }
                                }
                            } else {
                                params.push((key.to_owned(), v));
                            }
                        }
                    },
                }
            },
            None => {
                if schema.additional_properties {
                    let sv = ParamValue::String(value.to_owned());
                    proof {
                        if pre_errors == 0 {
                            assert(spec_param_matches(
                                schema,
                                pairs[i as int].0,
                                pairs[i as int].1,
                                sv,
                            ));
                        }
                    }
                    params.push((key.to_owned(), sv));
                } else {
                    errors.push("schema does not allow additional properties.".to_owned());
                    proof {
                        assert(spec_pair_invalid(schema, pairs[i as int].0, pairs[i as int].1));
                    }
                }
            },
        }
        proof {
            // no new duplicate arises without an error
            if errors.spec_len() == 0 {
                assert(pre_errors == 0);
                assert(!spec_has_dup(pairs.take(i + 1), schema)) by {
                    if spec_has_dup(pairs.take(i + 1), schema) {
                        let (a, b) = choose|a: int, b: int|
                            #[trigger] spec_dup_pair(pairs.take(i + 1), schema, a, b);
                        assert(pairs.take(i + 1)[a] == pairs[a]);
                        assert(pairs.take(i + 1)[b] == pairs[b]);
                        if b < i {
                            assert(spec_dup_pair(pairs.take(i as int), schema, a, b)) by {
                                assert(pairs.take(i as int)[a] == pairs[a]);
                                assert(pairs.take(i as int)[b] == pairs[b]);
                            }
                            assert(spec_has_dup(pairs.take(i as int), schema));
                        } else {
                            // b == i: the earlier pair with the same key was
                            // accepted, so the key was found in params
                            assert(pairs[a].0 == pairs[i as int].0);
                            assert(spec_in_params(pre_params, pairs[a].0));
                        }
                    }
                }
            }
            if errors.spec_len() > 0 && pre_errors == 0 {
                assert((exists|j: int|
                    0 <= j < i + 1 && spec_pair_invalid(schema, pairs[j].0, pairs[j].1))
                    || spec_has_dup(pairs.take(i + 1), schema));
            }
            if errors.spec_len() == 0 {
                assert forall|k: Seq<char>|
                    spec_in_params(params@, k) <==> (exists|j: int|
                        0 <= j < i + 1 && pairs[j].0 == k) by {
                    if spec_in_params(params@, k) {
                        let m = choose|m: int|
                            0 <= m < params@.len() && params@[m].0@ == k;
                        if m < pre_params.len() {
                            assert(pre_params[m].0@ == k);
                            assert(spec_in_params(pre_params, k));
                        } else {
                            assert(params@[m].0@ == pairs[i as int].0);
                        }
                    }
                    if exists|j: int| 0 <= j < i + 1 && pairs[j].0 == k {
                        let j = choose|j: int| 0 <= j < i + 1 && pairs[j].0 == k;
                        if j < i {
                            assert(spec_in_params(pre_params, k));
                            let m = choose|m: int|
                                0 <= m < pre_params.len() && pre_params[m].0@ == k;
                            assert(params@[m].0@ == k);
                            assert(spec_in_params(params@, k));
                        } else {
                            assert(params@[params@.len() - 1].0@ == pairs[i as int].0);
                            assert(spec_in_params(params@, k));
                        }
                    }
                }
            }
            if pre_errors > 0 {
                assert(spec_has_dup(pairs.take(i as int), schema) ==> spec_has_dup(
                    pairs.take(i + 1),
                    schema,
                )) by {
                    if spec_has_dup(pairs.take(i as int), schema) {
                        let (a, b) = choose|a: int, b: int|
                            #[trigger] spec_dup_pair(pairs.take(i as int), schema, a, b);
                        assert(spec_dup_pair(pairs.take(i + 1), schema, a, b)) by {
                            assert(pairs.take(i + 1)[a] == pairs.take(i as int)[a]);
                            assert(pairs.take(i + 1)[b] == pairs.take(i as int)[b]);
                        }
                    }
                }
            }
        }
        i = i + 1;
    }
    proof {
        assert(pairs.take(n as int) =~= pairs);
        if errors.spec_len() == 0 {
            assert(params@.len() == pairs.len());
        }
    }
    if test_required && errors.len() == 0 {
        let mut p: usize = 0;
        while p < schema.properties.len()
            invariant
                pairs == data@.map_values(|pr: (String, String)| (pr.0@, pr.1@)),
                pairs.len() == data@.len(),
                p <= schema.properties@.len(),
                forall|k: Seq<char>|
                    spec_in_params(params@, k) <==> (exists|j: int|
                        0 <= j < pairs.len() && pairs[j].0 == k),
                !(exists|j: int|
                    0 <= j < pairs.len() && spec_pair_invalid(schema, pairs[j].0, pairs[j].1)),
                !spec_has_dup(pairs, schema),
                errors.spec_len() > 0 <==> (exists|q: int|
                    0 <= q < p && !schema.properties@[q].optional && !(exists|j: int|
                        0 <= j < pairs.len() && pairs[j].0 == schema.properties@[q].name@)),
            decreases schema.properties@.len() - p,
        {
            if !schema.properties[p].optional && !params_contain(
                &params,
                schema.properties[p].name.as_str(),
            ) {
                errors.push("parameter is missing and it is not optional.".to_owned());
                proof {
                    assert(!(exists|j: int|
                        0 <= j < pairs.len() && pairs[j].0 == schema.properties@[p as int].name@));
                }
            }
            p = p + 1;
        }
    }
    if errors.len() > 0 {
        Err(errors)
    } else {
        Ok(params)
    }
}

/// Decode a query string and validate it against an object schema.
pub fn parse_query_string(query: &str, schema: &ObjectSchema, test_required: bool) -> (r: Result<
    Vec<(String, ParamValue)>,
    ParameterError,
>)
    ensures
        ({
            let pairs = form_decode_of(query@);
            r is Ok <==> (!(exists|i: int|
                0 <= i < pairs.len() && spec_pair_invalid(schema, pairs[i].0, pairs[i].1))
                && !spec_has_dup(pairs, schema) && !(test_required && spec_required_missing(
                pairs,
                schema,
            )))
        }),
        ({
            let pairs = form_decode_of(query@);
            r matches Ok(params) ==> params@.len() == pairs.len() && (forall|m: int|
                0 <= m < pairs.len() ==> (#[trigger] params@[m]).0@ == pairs[m].0
                    && spec_param_matches(schema, pairs[m].0, pairs[m].1, params@[m].1))
        }),
{
    let param_list = form_urldecode(query);
    parse_parameter_strings(&param_list, schema, test_required)
}

} // verus!
