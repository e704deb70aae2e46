//! The command-line client: what it asks for, and how it shows what comes back.
//!
//! The status of a daemon is a map of named values. Numbers and booleans keep their type in JSON:
//! a consumer that has to strip quotes and parse `"2"` is being handed a string that merely looks
//! structured.

use crate::daemon::modes::ModeInfo;
use crate::daemon::service::DeviceInfo;
use crate::dict::{sorted, Dict};
use crate::text::{
    chars_of, decimal, law_numbers_read_back, number, occurs, occurs_at, owned, parse_u32,
    same_text, string_of, unsigned, views,
};
use vstd::prelude::*;
use vstd::string::*;

verus! {

/// A value of the bus, as far as it is shown.
#[derive(Debug)]
pub enum Variant {
    Boolean(bool),
    Number(u32),
    Text(String),
    /// A value of another type, in its debug form: a daemon that grows a field stays readable.
    Other(String),
}

/// What a [`Variant`] stands for.
pub enum Held {
    Boolean(bool),
    Number(u32),
    Text(Seq<char>),
    Other(Seq<char>),
}

impl View for Variant {
    type V = Held;

    open spec fn view(&self) -> Held {
        match self {
            Variant::Boolean(b) => Held::Boolean(*b),
            Variant::Number(n) => Held::Number(*n),
            Variant::Text(s) => Held::Text(s@),
            Variant::Other(s) => Held::Other(s@),
        }
    }
}

/// A value of any type that crosses the bus.
#[verifier::external_type_specification]
#[verifier::external_body]
pub struct ExOwnedValue(zbus::zvariant::OwnedValue);

/// What a `zbus::zvariant::OwnedValue` holds.
pub uninterp spec fn held(v: zbus::zvariant::OwnedValue) -> Held;

/// `<zbus::zvariant::OwnedValue as Deref>::deref`, and the variants `Bool`, `U32` and `Str` of the
/// `Value` behind it: what the value holds, any other in the form that its `Debug` writes. Which
/// form that is, is left unsaid.
#[verifier::external_body]
fn variant_of(v: &zbus::zvariant::OwnedValue) -> (r: Variant)
    ensures
        r@ == held(*v),
{
    match &**v {
        zbus::zvariant::Value::Bool(b) => Variant::Boolean(*b),
        zbus::zvariant::Value::U32(n) => Variant::Number(*n),
        zbus::zvariant::Value::Str(s) => Variant::Text(s.to_string()),
        _ => Variant::Other(format!("{:?}", v)),
    }
}

/// A character of a text within a JSON string.
pub open spec fn escaped_char(c: char) -> Seq<char> {
    if c == '\\' {
        seq!['\\', '\\']
    } else if c == '"' {
        seq!['\\', '"']
    } else {
        seq![c]
    }
}

/// A text within a JSON string.
pub open spec fn escaped(s: Seq<char>) -> Seq<char>
    decreases s.len(),
{
    if s.len() == 0 {
        seq![]
    } else {
        escaped(s.drop_last()) + escaped_char(s.last())
    }
}

/// A text with its quotes and backslashes escaped.
pub fn escape(s: &str) -> (r: String)
    ensures
        r@ == escaped(s@),
{
    let v = chars_of(s);
    let mut out: Vec<char> = Vec::new();
    let mut i: usize = 0;
    assert(v@.take(0) =~= Seq::<char>::empty());
    while i < v.len()
        invariant
            i <= v.len(),
            out@ == escaped(v@.take(i as int)),
        decreases v.len() - i,
    {
        let ghost before = out@;
        proof {
            let now = v@.take(i + 1);
            assert(now.drop_last() =~= v@.take(i as int));
            assert(now.last() == v@[i as int]);
        }
        let c: char = v[i];
        if c == '\\' {
            out.push('\\');
            out.push('\\');
        } else if c == '"' {
            out.push('\\');
            out.push('"');
        } else {
            out.push(c);
        }
        assert(out@ =~= before + escaped_char(c));
        i += 1;
    }
    assert(v@.take(i as int) =~= v@);
    string_of(&out)
}

/// What a reader of a JSON string makes of it, as far as quotes and backslashes go.
pub open spec fn unescaped(s: Seq<char>) -> Seq<char>
    decreases s.len(),
{
    if s.len() == 0 {
        seq![]
    } else if s[0] == '\\' && s.len() > 1 {
        seq![s[1]] + unescaped(s.skip(2))
    } else {
        seq![s[0]] + unescaped(s.drop_first())
    }
}

/// The number of characters up to the quote that ends a JSON string.
pub open spec fn string_end(s: Seq<char>) -> nat
    decreases s.len(),
{
    if s.len() == 0 || s[0] == '"' {
        0
    } else if s[0] == '\\' && s.len() > 1 {
        2 + string_end(s.skip(2))
    } else {
        1 + string_end(s.drop_first())
    }
}

proof fn lemma_escaped_first(s: Seq<char>)
    requires
        s.len() > 0,
    ensures
        escaped(s) == escaped_char(s[0]) + escaped(s.drop_first()),
    decreases s.len(),
{
    if s.len() == 1 {
        assert(s.drop_last() =~= Seq::<char>::empty());
        assert(s.drop_first() =~= Seq::<char>::empty());
        assert(escaped(s) =~= escaped_char(s[0]) + escaped(s.drop_first()));
    } else {
        lemma_escaped_first(s.drop_last());
        assert(s.drop_last().drop_first() =~= s.drop_first().drop_last());
        assert(s.drop_first().last() == s.last());
        assert(s.drop_last()[0] == s[0]);
        assert(escaped(s) =~= escaped_char(s[0]) + escaped(s.drop_first()));
    }
}

/// Whatever a text holds, a reader of its JSON string gets it back, and the string ends where the
/// text does.
pub proof fn law_an_escaped_text_reads_back(s: Seq<char>)
    ensures
        unescaped(escaped(s)) == s,
        string_end(escaped(s) + seq!['"']) == escaped(s).len(),
    decreases s.len(),
{
    let e = escaped(s);
    let whole = e + seq!['"'];
    if s.len() == 0 {
        assert(unescaped(e) =~= s);
    } else {
        let rest = s.drop_first();
        law_an_escaped_text_reads_back(rest);
        lemma_escaped_first(s);
        let more = escaped(rest);
        if s[0] == '\\' || s[0] == '"' {
            assert(e.skip(2) =~= more);
            assert(whole.skip(2) =~= more + seq!['"']);
            assert(e[1] == s[0]);
        } else {
            assert(e.drop_first() =~= more);
            assert(whole.drop_first() =~= more + seq!['"']);
        }
        assert(unescaped(e) =~= seq![s[0]] + rest);
        assert(seq![s[0]] + rest =~= s);
    }
}

/// A value in JSON.
pub open spec fn json(v: Held) -> Seq<char> {
    match v {
        Held::Boolean(true) => "true"@,
        Held::Boolean(false) => "false"@,
        Held::Number(n) => decimal(n as nat),
        Held::Text(s) => "\""@ + escaped(s) + "\""@,
        Held::Other(s) => "\""@ + escaped(s) + "\""@,
    }
}

/// A value as a person reads it.
pub open spec fn plain(v: Held) -> Seq<char> {
    match v {
        Held::Boolean(true) => "true"@,
        Held::Boolean(false) => "false"@,
        Held::Number(n) => decimal(n as nat),
        Held::Text(s) => s,
        Held::Other(s) => s,
    }
}

impl Variant {
    /// The value in JSON, with its real type.
    pub fn json(&self) -> (r: String)
        ensures
            r@ == json(self@),
    {
        match self {
            Variant::Boolean(b) => if *b {
                owned("true")
            } else {
                owned("false")
            },
            Variant::Number(n) => number(*n as u64),
            Variant::Text(s) => owned("\"").concat(escape(s.as_str()).as_str()).concat("\""),
            Variant::Other(s) => owned("\"").concat(escape(s.as_str()).as_str()).concat("\""),
        }
    }

    /// The value as a person reads it.
    pub fn plain(&self) -> (r: String)
        ensures
            r@ == plain(self@),
    {
        match self {
            Variant::Boolean(b) => if *b {
                owned("true")
            } else {
                owned("false")
            },
            Variant::Number(n) => number(*n as u64),
            Variant::Text(s) => owned(s.as_str()),
            Variant::Other(s) => owned(s.as_str()),
        }
    }
}

/// One value, rendered with its real JSON type.
pub fn as_json(v: Option<&zbus::zvariant::OwnedValue>) -> (r: String)
    ensures
        r@ == match v {
            None => "null"@,
            Some(v) => json(held(*v)),
        },
{
    match v {
        None => owned("null"),
        Some(v) => variant_of(v).json(),
    }
}

/// One value, rendered for a person.
pub fn as_string(v: Option<&zbus::zvariant::OwnedValue>) -> (r: String)
    ensures
        r@ == shown(
            match v {
                None => None,
                Some(v) => Some(held(*v)),
            },
        ),
{
    match v {
        None => owned("—"),
        Some(v) => variant_of(v).plain(),
    }
}

/// A value that may be missing, as a person reads it.
pub open spec fn shown(v: Option<Held>) -> Seq<char> {
    match v {
        None => "—"@,
        Some(v) => plain(v),
    }
}

/// What a status holds under a key.
pub open spec fn held_under(
    map: Map<Seq<char>, zbus::zvariant::OwnedValue>,
    key: Seq<char>,
) -> Option<Held> {
    if map.contains_key(key) {
        Some(held(map[key]))
    } else {
        None
    }
}

/// What stands between the braces of a status in JSON: its first `n` values, in key order.
pub open spec fn json_body(
    listed: Seq<(Seq<char>, zbus::zvariant::OwnedValue)>,
    n: int,
) -> Seq<char>
    decreases n,
{
    if n <= 0 {
        seq![]
    } else {
        json_body(listed, n - 1) + (if n == 1 {
            Seq::<char>::empty()
        } else {
            ","@
        }) + "\""@ + listed[n - 1].0 + "\":"@ + json(held(listed[n - 1].1))
    }
}

/// A status in JSON. The keys are in order, so the output is the same between runs.
pub fn print_json(map: &Dict<zbus::zvariant::OwnedValue>) -> (r: String)
    ensures
        sorted(map.listed()),
        r@ == "{"@ + json_body(map.listed(), map.listed().len() as int) + "}"@,
{
    map.in_order();
    let mut body = String::new();
    let mut i: usize = 0;
    while i < map.len()
        invariant
            i <= map.listed().len(),
            body@ == json_body(map.listed(), i as int),
        decreases map.listed().len() - i,
    {
        let lead = if i == 0 {
            owned("")
        } else {
            owned(",")
        };
        proof {
            reveal_strlit("");
            assert(""@ =~= Seq::<char>::empty());
        }
        body = body.concat(lead.as_str()).concat("\"").concat(map.key(i)).concat("\":").concat(
            as_json(Some(map.value(i))).as_str(),
        );
        i += 1;
    }
    owned("{").concat(body.as_str()).concat("}")
}

/// Whether a status says yes under a key.
pub open spec fn says_yes(
    map: Map<Seq<char>, zbus::zvariant::OwnedValue>,
    key: Seq<char>,
) -> bool {
    shown(held_under(map, key)) == "true"@
}

/// The lines that show a status. Degradation is the state most likely to be mistaken for the
/// feature being broken, so it is spelled out.
pub open spec fn status_text(map: Map<Seq<char>, zbus::zvariant::OwnedValue>) -> Seq<Seq<char>> {
    let head = seq![
        "mode "@ + shown(held_under(map, "mode_slot"@)) + " — "@ + shown(
            held_under(map, "mode_name"@),
        ),
        "profile:  "@ + shown(held_under(map, "profile"@)),
        "state:    "@ + (if says_yes(map, "panicked"@) {
            "PANICKED — the grab is released"@
        } else {
            "active"@
        }),
        "tablets:  "@ + shown(held_under(map, "tablets"@)) + " ("@ + (if says_yes(
            map,
            "tablets_placed"@,
        ) {
            "confined to their screens"@
        } else {
            "not confined"@
        }) + ")"@,
    ];
    let degraded = if says_yes(map, "degraded"@) {
        head.push("degraded: "@ + shown(held_under(map, "degraded_reason"@)))
    } else {
        head
    };
    degraded.push("version:  "@ + shown(held_under(map, "version"@)))
}

fn value_under(map: &Dict<zbus::zvariant::OwnedValue>, key: &str) -> (r: String)
    ensures
        r@ == shown(held_under(map.map(), key@)),
{
    as_string(map.get(key))
}

/// The lines that show a status.
pub fn print_status(map: &Dict<zbus::zvariant::OwnedValue>) -> (r: Vec<String>)
    ensures
        views(r@) == status_text(map.map()),
{
    let panicked = value_under(map, "panicked");
    let placed = value_under(map, "tablets_placed");
    let degraded = value_under(map, "degraded");
    let state = if same_text(panicked.as_str(), "true") {
        "PANICKED — the grab is released"
    } else {
        "active"
    };
    let confined = if same_text(placed.as_str(), "true") {
        "confined to their screens"
    } else {
        "not confined"
    };
    let mut r: Vec<String> = Vec::new();
    r.push(
        owned("mode ").concat(value_under(map, "mode_slot").as_str()).concat(" — ").concat(
            value_under(map, "mode_name").as_str(),
        ),
    );
    r.push(owned("profile:  ").concat(value_under(map, "profile").as_str()));
    r.push(owned("state:    ").concat(state));
    r.push(
        owned("tablets:  ").concat(value_under(map, "tablets").as_str()).concat(" (").concat(
            confined,
        ).concat(")"),
    );
    if same_text(degraded.as_str(), "true") {
        r.push(owned("degraded: ").concat(value_under(map, "degraded_reason").as_str()));
    }
    r.push(owned("version:  ").concat(value_under(map, "version").as_str()));
    assert(views(r@) =~= status_text(map.map()));
    r
}

/// Why a request to the daemon failed.
#[derive(Debug)]
pub enum Error {
    /// Nothing answers under the daemon's name.
    NoDaemon,
    /// The bus, or the daemon, does not let the user do this.
    Permission(String),
    Other(String),
}

/// How the client ends.
#[derive(Debug, Clone, Copy, PartialEq, Eq, Structural)]
pub enum ExitCode {
    Success,
    Failure,
    /// The most likely failure on a first run, such as not being in the `input` group.
    Permission,
    /// Apart from the others, so that a script can start a daemon and try again.
    NoDaemon,
}

/// The number that a script sees. Two is what a wrong command line ends with.
pub open spec fn number_of(e: ExitCode) -> u8 {
    match e {
        ExitCode::Success => 0,
        ExitCode::Failure => 1,
        ExitCode::Permission => 3,
        ExitCode::NoDaemon => 4,
    }
}

impl ExitCode {
    /// The number that a script sees.
    pub fn code(&self) -> (r: u8)
        ensures
            r == number_of(*self),
    {
        match self {
            ExitCode::Success => 0,
            ExitCode::Failure => 1,
            ExitCode::Permission => 3,
            ExitCode::NoDaemon => 4,
        }
    }
}

/// Every way to end has a number of its own.
pub proof fn law_exit_codes_are_distinct(a: ExitCode, b: ExitCode)
    requires
        a != b,
    ensures
        number_of(a) != number_of(b),
{
}

/// How the bus calls a name that nothing answers under.
pub const SERVICE_UNKNOWN: &'static str = "org.freedesktop.DBus.Error.ServiceUnknown";

/// How the bus calls a refusal.
pub const ACCESS_DENIED: &'static str = "org.freedesktop.DBus.Error.AccessDenied";

/// The failure behind an error of the bus of that name.
pub open spec fn failure_of(name: Option<Seq<char>>, text: String) -> Error {
    match name {
        None => Error::Other(text),
        Some(n) => if n == SERVICE_UNKNOWN@ {
            Error::NoDaemon
        } else if n == ACCESS_DENIED@ {
            Error::Permission(text)
        } else {
            Error::Other(text)
        },
    }
}

/// How the client ends after a failure.
pub open spec fn exit_of(e: Error) -> ExitCode {
    match e {
        Error::NoDaemon => ExitCode::NoDaemon,
        Error::Permission(_) => ExitCode::Permission,
        Error::Other(_) => ExitCode::Failure,
    }
}

/// What is said of a failure.
pub open spec fn failure_text(e: Error) -> Seq<char> {
    match e {
        Error::NoDaemon => "no StabMouse daemon is running"@,
        Error::Permission(text) => "permission denied: "@ + text@,
        Error::Other(text) => text@,
    }
}

impl Error {
    /// The failure behind an error of the bus: `name` is what the bus calls it, where it has a
    /// name, and `text` what it says.
    pub fn of(name: Option<&str>, text: String) -> (r: Self)
        ensures
            r == failure_of(
                match name {
                    None => None,
                    Some(n) => Some(n@),
                },
                text,
            ),
    {
        match name {
            None => Error::Other(text),
            Some(n) => {
                if same_text(n, SERVICE_UNKNOWN) {
                    Error::NoDaemon
                } else if same_text(n, ACCESS_DENIED) {
                    Error::Permission(text)
                } else {
                    Error::Other(text)
                }
            },
        }
    }

    pub fn exit_code(&self) -> (r: ExitCode)
        ensures
            r == exit_of(*self),
    {
        match self {
            Error::NoDaemon => ExitCode::NoDaemon,
            Error::Permission(_) => ExitCode::Permission,
            Error::Other(_) => ExitCode::Failure,
        }
    }

    /// What is said of the failure.
    pub fn message(&self) -> (s: String)
        ensures
            s@ == failure_text(*self),
    {
        match self {
            Error::NoDaemon => owned("no StabMouse daemon is running"),
            Error::Permission(text) => owned("permission denied: ").concat(text.as_str()),
            Error::Other(text) => owned(text.as_str()),
        }
    }
}

/// Which mode is asked for.
#[derive(Debug)]
pub enum Which {
    Slot(u32),
    Name(String),
}

/// Whether `r` is the mode that a text asks for.
pub open spec fn is_asked(r: Which, which: Seq<char>) -> bool {
    match unsigned(which, u32::MAX as nat) {
        Some(n) => r matches Which::Slot(slot) && slot == n,
        None => r matches Which::Name(name) && name@ == which,
    }
}

/// A bare number is a slot; anything else is a name. A mode literally named "2" is unreachable by
/// name, which is a fair trade for `stabmouse mode 2` doing the obvious thing.
pub fn which_mode(which: &str) -> (r: Which)
    ensures
        is_asked(r, which@),
{
    let v = chars_of(which);
    match parse_u32(&v) {
        Some(slot) => Which::Slot(slot),
        None => Which::Name(owned(which)),
    }
}

/// The line that shows a mode slot.
pub open spec fn mode_text(
    slot: u32,
    name: Seq<char>,
    output: Seq<char>,
    preset: Seq<char>,
) -> Seq<char> {
    decimal(slot as nat) + ": "@ + name + " — "@ + output + " via '"@ + preset + "'"@
}

/// A mode slot in JSON.
pub open spec fn mode_object(
    slot: u32,
    name: Seq<char>,
    output: Seq<char>,
    preset: Seq<char>,
) -> Seq<char> {
    "{\"slot\":"@ + decimal(slot as nat) + ",\"name\":\""@ + name + "\",\"output\":\""@ + output
        + "\",\"preset\":\""@ + preset + "\"}"@
}

/// The line that shows a mode slot.
pub fn mode_line(m: &ModeInfo) -> (r: String)
    ensures
        r@ == mode_text(m.slot, m.name@, m.output@, m.preset@),
{
    number(m.slot as u64).concat(": ").concat(m.name.as_str()).concat(" — ").concat(
        m.output.as_str(),
    ).concat(" via '").concat(m.preset.as_str()).concat("'")
}

/// A mode slot in JSON.
pub fn mode_json(m: &ModeInfo) -> (r: String)
    ensures
        r@ == mode_object(m.slot, m.name@, m.output@, m.preset@),
{
    owned("{\"slot\":").concat(number(m.slot as u64).as_str()).concat(",\"name\":\"").concat(
        m.name.as_str(),
    ).concat("\",\"output\":\"").concat(m.output.as_str()).concat("\",\"preset\":\"").concat(
        m.preset.as_str(),
    ).concat("\"}")
}

/// A text with as many spaces behind it as make it `width` characters long.
pub open spec fn padded(s: Seq<char>, width: int) -> Seq<char> {
    if s.len() >= width {
        s
    } else {
        s + Seq::new((width - s.len()) as nat, |i: int| ' ')
    }
}

fn pad(text: &str, width: usize) -> (r: String)
    ensures
        r@ == padded(text@, width as int),
{
    let mut r = owned(text);
    let mut n: usize = text.unicode_len();
    assert(r@ =~= padded(text@, n as int));
    while n < width
        invariant
            text@.len() <= n,
            n <= width || n == text@.len(),
            r@ == padded(text@, n as int),
        decreases width - n,
    {
        r.append(" ");
        n = n + 1;
        proof {
            reveal_strlit(" ");
            assert(r@ =~= padded(text@, n as int));
        }
    }
    assert(r@ =~= padded(text@, width as int));
    r
}

/// The line that shows an input device.
pub fn device_line(d: &DeviceInfo) -> (r: String)
    ensures
        r@ == padded(d.id@, 24) + " "@ + padded(d.name@, 40) + " "@ + if d.managed {
            "managed"@
        } else {
            "ignored"@
        },
{
    pad(d.id.as_str(), 24).concat(" ").concat(pad(d.name.as_str(), 40).as_str()).concat(
        " ",
    ).concat(
        if d.managed {
            "managed"
        } else {
            "ignored"
        },
    )
}

/// A value in JSON keeps its type: a yes or no and a number stand bare, a text in quotes with its
/// own quotes and backslashes escaped. A person reads the same without quotes and escapes.
pub proof fn law_json_keeps_the_type(b: bool, n: u32, s: Seq<char>)
    ensures
        json(Held::Boolean(b)) == (if b {
            "true"@
        } else {
            "false"@
        }),
        json(Held::Number(n)) == decimal(n as nat),
        json(Held::Text(s)) == seq!['"'] + escaped(s) + seq!['"'],
        json(Held::Other(s)) == seq!['"'] + escaped(s) + seq!['"'],
        plain(Held::Boolean(b)) == json(Held::Boolean(b)),
        plain(Held::Number(n)) == json(Held::Number(n)),
        plain(Held::Text(s)) == s,
        plain(Held::Other(s)) == s,
        !s.contains('"') && !s.contains('\\') ==> escaped(s) == s,
        shown(Some(Held::Text(s))) == s,
        shown(None) == "—"@,
{
    reveal_strlit("\"");
    assert("\""@ =~= seq!['"']);
    if !s.contains('"') && !s.contains('\\') {
        lemma_nothing_to_escape(s);
    }
}

proof fn lemma_nothing_to_escape(s: Seq<char>)
    requires
        !s.contains('"'),
        !s.contains('\\'),
    ensures
        escaped(s) == s,
    decreases s.len(),
{
    if s.len() > 0 {
        let rest = s.drop_last();
        assert(s.contains(s[s.len() - 1]));
        if rest.contains('"') {
            let i = choose|i: int| 0 <= i < rest.len() && rest[i] == '"';
            assert(s[i] == '"');
        }
        if rest.contains('\\') {
            let i = choose|i: int| 0 <= i < rest.len() && rest[i] == '\\';
            assert(s[i] == '\\');
        }
        lemma_nothing_to_escape(rest);
        assert(escaped(s) =~= s);
    } else {
        assert(escaped(s) =~= s);
    }
}

/// A status in JSON has every value once, under its own key, in order, with a comma between each
/// two of them.
pub proof fn law_json_has_every_value(
    listed: Seq<(Seq<char>, zbus::zvariant::OwnedValue)>,
    n: int,
)
    requires
        0 <= n < listed.len(),
    ensures
        json_body(listed, 0).len() == 0,
        n == 0 ==> json_body(listed, 1) == seq!['"'] + listed[0].0 + seq!['"', ':'] + json(
            held(listed[0].1),
        ),
        n > 0 ==> json_body(listed, n + 1) == json_body(listed, n) + seq![',', '"'] + listed[n].0
            + seq!['"', ':'] + json(held(listed[n].1)),
{
    reveal_strlit("\"");
    reveal_strlit(",");
    reveal_strlit("\":");
    assert("\""@ =~= seq!['"']);
    assert(","@ =~= seq![',']);
    assert("\":"@ =~= seq!['"', ':']);
    reveal_with_fuel(json_body, 2);
    if n == 0 {
        assert(json_body(listed, 1) =~= seq!['"'] + listed[0].0 + seq!['"', ':'] + json(
            held(listed[0].1),
        ));
    } else {
        assert(json_body(listed, n + 1) =~= json_body(listed, n) + seq![',', '"'] + listed[n].0
            + seq!['"', ':'] + json(held(listed[n].1)));
    }
}

/// A padded text is the text with blanks behind it, as wide as is asked for and never cut.
pub proof fn law_padding_adds_blanks_alone(s: Seq<char>, width: int)
    ensures
        padded(s, width).len() == if s.len() as int >= width {
            s.len() as int
        } else {
            width
        },
        padded(s, width).take(s.len() as int) == s,
        forall|i: int| s.len() <= i < padded(s, width).len() ==> #[trigger] padded(s, width)[i]
            == ' ',
{
    assert(padded(s, width).take(s.len() as int) =~= s);
}

/// Scripts tell success from failure, a refusal and a missing daemon by these numbers.
pub proof fn law_success_is_zero(e: ExitCode)
    ensures
        number_of(e) == 0 <==> e == ExitCode::Success,
        number_of(e) == 1 <==> e == ExitCode::Failure,
        number_of(e) == 3 <==> e == ExitCode::Permission,
        number_of(e) == 4 <==> e == ExitCode::NoDaemon,
{
}

/// A name that nothing answers under means that no daemon runs, a refusal that the user may not,
/// and anything else is told as it is; each ends the client with a number of its own, none of them
/// that of success.
pub proof fn law_a_failure_is_told_apart(n: Seq<char>, text: String)
    ensures
        number_of(exit_of(failure_of(Some(SERVICE_UNKNOWN@), text))) == 4,
        number_of(exit_of(failure_of(Some(ACCESS_DENIED@), text))) == 3,
        n != SERVICE_UNKNOWN@ && n != ACCESS_DENIED@ ==> number_of(
            exit_of(failure_of(Some(n), text)),
        ) == 1 && failure_text(failure_of(Some(n), text)) == text@,
        number_of(exit_of(failure_of(None, text))) == 1,
        failure_text(failure_of(None, text)) == text@,
        failure_text(failure_of(Some(ACCESS_DENIED@), text)) == "permission denied: "@ + text@,
        SERVICE_UNKNOWN@ != ACCESS_DENIED@,
{
    reveal_strlit("org.freedesktop.DBus.Error.ServiceUnknown");
    reveal_strlit("org.freedesktop.DBus.Error.AccessDenied");
    assert("org.freedesktop.DBus.Error.ServiceUnknown"@.len() == 41);
    assert("org.freedesktop.DBus.Error.AccessDenied"@.len() == 39);
}

/// A number asks for the slot of that number, and anything else for the mode of that name.
pub proof fn law_a_number_asks_for_a_slot(r: Which, n: u32, name: Seq<char>)
    ensures
        is_asked(r, decimal(n as nat)) ==> r == Which::Slot(n),
        is_asked(r, name) && (name.len() == 0 || !('0' <= name[0] && name[0] <= '9') && name[0]
            != '+') ==> r is Name && r->Name_0@ == name,
{
    law_numbers_read_back(n as nat, u32::MAX as nat, name);
}

/// The line of a slot and its JSON say the slot's number, name, output and preset, in this order.
pub proof fn law_a_slot_is_shown_whole(
    slot: u32,
    name: Seq<char>,
    output: Seq<char>,
    preset: Seq<char>,
)
    ensures
        decimal(slot as nat).is_prefix_of(mode_text(slot, name, output, preset)),
        mode_text(slot, name, output, preset) == decimal(slot as nat) + seq![':', ' '] + name
            + seq![' ', '—', ' '] + output + seq![' ', 'v', 'i', 'a', ' ', '\''] + preset + seq![
            '\'',
        ],
        occurs("\"name\":\""@ + name + "\""@, mode_object(slot, name, output, preset)),
        occurs("\"output\":\""@ + output + "\""@, mode_object(slot, name, output, preset)),
        occurs("\"preset\":\""@ + preset + "\""@, mode_object(slot, name, output, preset)),
        occurs("\"slot\":"@ + decimal(slot as nat), mode_object(slot, name, output, preset)),
{
    reveal_strlit(": ");
    reveal_strlit(" — ");
    reveal_strlit(" via '");
    reveal_strlit("'");
    reveal_strlit("{\"slot\":");
    reveal_strlit(",\"name\":\"");
    reveal_strlit("\",\"output\":\"");
    reveal_strlit("\",\"preset\":\"");
    reveal_strlit("\"}");
    reveal_strlit("\"name\":\"");
    reveal_strlit("\"output\":\"");
    reveal_strlit("\"preset\":\"");
    reveal_strlit("\"slot\":");
    reveal_strlit("\"");
    let d = decimal(slot as nat);
    let line = mode_text(slot, name, output, preset);
    assert(line =~= d + seq![':', ' '] + name + seq![' ', '—', ' '] + output + seq![
        ' ',
        'v',
        'i',
        'a',
        ' ',
        '\'',
    ] + preset + seq!['\'']);
    assert(line.take(d.len() as int) =~= d);
    let o = mode_object(slot, name, output, preset);
    let a = 1int;
    let own = "\"slot\":"@ + d;
    assert(o.subrange(a, a + own.len()) =~= own);
    assert(occurs_at(own, o, a));
    let b = 9int + d.len();
    let named = "\"name\":\""@ + name + "\""@;
    assert(o.subrange(b, b + named.len()) =~= named);
    assert(occurs_at(named, o, b));
    let c = b + 10 + name.len();
    let out = "\"output\":\""@ + output + "\""@;
    assert(o.subrange(c, c + out.len()) =~= out);
    assert(occurs_at(out, o, c));
    let e = c + 12 + output.len();
    let pre = "\"preset\":\""@ + preset + "\""@;
    assert(o.subrange(e, e + pre.len()) =~= pre);
    assert(occurs_at(pre, o, e));
}

/// The status shows each value under its own label. It says that the grab is released exactly where
/// the daemon panicked, that tablets are confined exactly where they are, and why output is limited
/// exactly where it is.
pub proof fn law_the_status_shows_what_is_so(map: Map<Seq<char>, zbus::zvariant::OwnedValue>)
    ensures
        ({
            let yes = |k: Seq<char>|
                map.contains_key(k) && (held(map[k]) == Held::Boolean(true) || held(map[k])
                    == Held::Text("true"@) || held(map[k]) == Held::Other("true"@));
            let t = status_text(map);
            &&& t[0] == "mode "@ + shown(held_under(map, "mode_slot"@)) + " — "@ + shown(
                held_under(map, "mode_name"@),
            )
            &&& t[1] == "profile:  "@ + shown(held_under(map, "profile"@))
            &&& yes("panicked"@) ==> t[2] == "state:    "@ + "PANICKED — the grab is released"@
            &&& yes("degraded"@) ==> t.len() == 6 && t[4] == "degraded: "@ + shown(
                held_under(map, "degraded_reason"@),
            )
            &&& map.contains_key("degraded"@) && held(map["degraded"@]) == Held::Boolean(false)
                ==> t.len() == 5
            &&& map.contains_key("panicked"@) && held(map["panicked"@]) == Held::Boolean(false)
                ==> t[2] == "state:    "@ + "active"@
            &&& t.last() == "version:  "@ + shown(held_under(map, "version"@))
        }),
{
    reveal_strlit("true");
    reveal_strlit("false");
    assert("true"@.len() == 4 && "false"@.len() == 5);
}

/// What a status holds under a key is what the value there holds.
pub proof fn law_a_key_holds_its_value(
    map: Map<Seq<char>, zbus::zvariant::OwnedValue>,
    key: Seq<char>,
)
    ensures
        map.contains_key(key) ==> held_under(map, key) == Some(held(map[key])),
        !map.contains_key(key) ==> held_under(map, key) is None,
{
}

} // verus!
