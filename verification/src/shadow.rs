//! Shadow rendering: translates machine events into short human glyphs and
//! the colours a terminal shows them in.
use vstd::prelude::*;
use vstd::string::StringExecFns;
use crate::text::str_equal;
use crate::types::{payload_get, payload_lookup};

verus! {

/// Shadow colours for terminal rendering.
#[derive(Debug, Clone, Copy, PartialEq, Eq, Hash, Structural)]
pub enum ShadowColor {
    Green,
    Yellow,
    Red,
    Blue,
    Magenta,
    Purple,
}

/// The name of a shadow colour.
pub open spec fn color_name(c: ShadowColor) -> Seq<char> {
    match c {
        ShadowColor::Green => "green"@,
        ShadowColor::Yellow => "yellow"@,
        ShadowColor::Red => "red"@,
        ShadowColor::Blue => "blue"@,
        ShadowColor::Magenta => "magenta"@,
        ShadowColor::Purple => "purple"@,
    }
}

/// Each shadow colour is named by its lowercase word.
pub proof fn lemma_color_names()
    ensures
        color_name(ShadowColor::Green) == "green"@,
        color_name(ShadowColor::Yellow) == "yellow"@,
        color_name(ShadowColor::Red) == "red"@,
        color_name(ShadowColor::Blue) == "blue"@,
        color_name(ShadowColor::Magenta) == "magenta"@,
        color_name(ShadowColor::Purple) == "purple"@,
{
}

impl ShadowColor {
    /// String representation.
    pub fn as_str(&self) -> (s: &'static str)
        ensures
            s@ == color_name(*self),
    {
        match self {
            ShadowColor::Green => "green",
            ShadowColor::Yellow => "yellow",
            ShadowColor::Red => "red",
            ShadowColor::Blue => "blue",
            ShadowColor::Magenta => "magenta",
            ShadowColor::Purple => "purple",
        }
    }
}

/// Shadow rendering layers.
#[derive(Debug, Clone, Copy, PartialEq, Eq, Hash, Structural)]
pub enum ShadowLayer {
    Glyph,
    Narrative,
    Philosophical,
}

/// How sure a model is of a prediction, in the bands that colour it:
/// high from 0.8 up, medium from 0.4 up, low below.
#[derive(Debug, Clone, Copy, PartialEq, Eq, Hash, Structural)]
pub enum ConfidenceBand {
    High,
    Medium,
    Low,
}

/// The colour of an event of the given type and confidence band.
pub open spec fn event_color(event_type: Seq<char>, band: ConfidenceBand) -> ShadowColor {
    if event_type == "anomaly"@ {
        ShadowColor::Red
    } else if event_type == "dream"@ {
        ShadowColor::Purple
    } else if event_type == "train"@ {
        ShadowColor::Yellow
    } else if event_type == "embed"@ || event_type == "query"@ || event_type == "recall"@
        || event_type == "remember"@ || event_type == "agent_connect"@ {
        ShadowColor::Blue
    } else if event_type == "predict"@ {
        match band {
            ConfidenceBand::High => ShadowColor::Green,
            ConfidenceBand::Medium => ShadowColor::Yellow,
            ConfidenceBand::Low => ShadowColor::Red,
        }
    } else if event_type == "analyze"@ {
        ShadowColor::Magenta
    } else {
        ShadowColor::Blue
    }
}

/// Classify the colour of an event from its type and, for predictions, the
/// band of its confidence.
pub fn classify_color(event_type: &str, band: ConfidenceBand) -> (c: ShadowColor)
    ensures
        c == event_color(event_type@, band),
{
    if str_equal(event_type, "anomaly") {
        ShadowColor::Red
    } else if str_equal(event_type, "dream") {
        ShadowColor::Purple
    } else if str_equal(event_type, "train") {
        ShadowColor::Yellow
    } else if str_equal(event_type, "embed") || str_equal(event_type, "query") || str_equal(
        event_type,
        "recall",
    ) || str_equal(event_type, "remember") || str_equal(event_type, "agent_connect") {
        ShadowColor::Blue
    } else if str_equal(event_type, "predict") {
        match band {
            ConfidenceBand::High => ShadowColor::Green,
            ConfidenceBand::Medium => ShadowColor::Yellow,
            ConfidenceBand::Low => ShadowColor::Red,
        }
    } else if str_equal(event_type, "analyze") {
        ShadowColor::Magenta
    } else {
        ShadowColor::Blue
    }
}

/// The payload value under `key`, or `default` where there is none.
pub open spec fn payload_or(payload: Seq<(String, String)>, key: Seq<char>, default: Seq<char>) -> Seq<
    char,
> {
    match payload_lookup(payload, key) {
        Some(v) => v,
        None => default,
    }
}

/// The glyph of an event: a short line naming what happened.
/// `confidence_pct` is the event's confidence in percent, as text.
pub open spec fn glyph_text(
    event_type: Seq<char>,
    payload: Seq<(String, String)>,
    confidence_pct: Seq<char>,
) -> Seq<char> {
    if event_type == "embed"@ {
        "🧮 embed ("@ + payload_or(payload, "dims"@, ""@) + ")"@
    } else if event_type == "train"@ {
        "🏋️ train "@ + payload_or(payload, "model"@, ""@)
    } else if event_type == "predict"@ {
        "🧠 predict ("@ + confidence_pct + "% conf)"@
    } else if event_type == "remember"@ {
        "💾 remembered: "@ + payload_or(payload, "preview"@, ""@)
    } else if event_type == "recall"@ {
        "🔍 recall: "@ + payload_or(payload, "preview"@, ""@)
    } else if event_type == "analyze"@ {
        "📊 "@ + payload_or(payload, "finding"@, "analysis"@)
    } else if event_type == "query"@ {
        "🔍 query: "@ + payload_or(payload, "query"@, ""@)
    } else if event_type == "anomaly"@ {
        "⚠️ anomaly: "@ + payload_or(payload, "detail"@, ""@)
    } else if event_type == "dream"@ {
        "💭 dreaming: "@ + payload_or(payload, "activity"@, ""@)
    } else if event_type == "resonance"@ {
        "⚡ resonance: "@ + payload_or(payload, "source_agent"@, "?"@) + " ↔ "@ + payload_or(
            payload,
            "target_agent"@,
            "?"@,
        )
    } else if event_type == "agent_connect"@ {
        "📡 "@ + payload_or(payload, "agent_id"@, "agent"@) + " joined"@
    } else {
        "• "@ + event_type
    }
}

/// The payload value under `key`, or `default`.
fn value_or<'a>(payload: &'a Vec<(String, String)>, key: &str, default: &'a str) -> (v: &'a str)
    ensures
        v@ == payload_or(payload@, key@, default@),
{
    match payload_get(payload, key) {
        Some(v) => v,
        None => default,
    }
}

/// A string holding `a` followed by `b`.
fn join2(a: &str, b: &str) -> (s: String)
    ensures
        s@ == a@ + b@,
{
    let mut s = String::from_str(a);
    s.append(b);
    s
}

/// A string holding `a`, `b` and `c` in turn.
fn join3(a: &str, b: &str, c: &str) -> (s: String)
    ensures
        s@ == a@ + b@ + c@,
{
    let mut s = String::from_str(a);
    s.append(b);
    s.append(c);
    s
}

/// Render the glyph of an event from its type, its payload and its
/// confidence in percent (as text, used by predictions only).
pub fn render_glyph(event_type: &str, payload: &Vec<(String, String)>, confidence_pct: &str) -> (g:
    String)
    ensures
        g@ == glyph_text(event_type@, payload@, confidence_pct@),
{
    if str_equal(event_type, "embed") {
        join3("🧮 embed (", value_or(payload, "dims", ""), ")")
    } else if str_equal(event_type, "train") {
        join2("🏋️ train ", value_or(payload, "model", ""))
    } else if str_equal(event_type, "predict") {
        join3("🧠 predict (", confidence_pct, "% conf)")
    } else if str_equal(event_type, "remember") {
        join2("💾 remembered: ", value_or(payload, "preview", ""))
    } else if str_equal(event_type, "recall") {
        join2("🔍 recall: ", value_or(payload, "preview", ""))
    } else if str_equal(event_type, "analyze") {
        join2("📊 ", value_or(payload, "finding", "analysis"))
    } else if str_equal(event_type, "query") {
        join2("🔍 query: ", value_or(payload, "query", ""))
    } else if str_equal(event_type, "anomaly") {
        join2("⚠️ anomaly: ", value_or(payload, "detail", ""))
    } else if str_equal(event_type, "dream") {
        join2("💭 dreaming: ", value_or(payload, "activity", ""))
    } else if str_equal(event_type, "resonance") {
        let mut s = join3(
            "⚡ resonance: ",
            value_or(payload, "source_agent", "?"),
            " ↔ ",
        );
        s.append(value_or(payload, "target_agent", "?"));
        s
    } else if str_equal(event_type, "agent_connect") {
        join3("📡 ", value_or(payload, "agent_id", "agent"), " joined")
    } else {
        join2("• ", event_type)
    }
}

} // verus!

verus! {

/// The event types that have a colour or glyph of their own.
pub open spec fn known_event_type(t: Seq<char>) -> bool {
    ||| t == "embed"@
    ||| t == "train"@
    ||| t == "predict"@
    ||| t == "remember"@
    ||| t == "recall"@
    ||| t == "analyze"@
    ||| t == "query"@
    ||| t == "anomaly"@
    ||| t == "dream"@
    ||| t == "resonance"@
    ||| t == "agent_connect"@
}

/// Anomalies are red, dreams purple, training yellow; embeddings, queries,
/// recalls, rememberings and agent connections are blue whatever their
/// confidence; predictions are green, yellow or red as their confidence is
/// high, medium or low; analyses are magenta; any other event is blue. Only a
/// prediction's colour depends on its confidence band.
pub proof fn lemma_event_colors(t: Seq<char>, band: ConfidenceBand, other: ConfidenceBand)
    ensures
        event_color("anomaly"@, band) == ShadowColor::Red,
        event_color("dream"@, band) == ShadowColor::Purple,
        event_color("train"@, band) == ShadowColor::Yellow,
        event_color("embed"@, band) == ShadowColor::Blue,
        event_color("query"@, band) == ShadowColor::Blue,
        event_color("recall"@, band) == ShadowColor::Blue,
        event_color("remember"@, band) == ShadowColor::Blue,
        event_color("agent_connect"@, band) == ShadowColor::Blue,
        event_color("predict"@, ConfidenceBand::High) == ShadowColor::Green,
        event_color("predict"@, ConfidenceBand::Medium) == ShadowColor::Yellow,
        event_color("predict"@, ConfidenceBand::Low) == ShadowColor::Red,
        event_color("analyze"@, band) == ShadowColor::Magenta,
        !known_event_type(t) ==> event_color(t, band) == ShadowColor::Blue,
        t != "predict"@ ==> event_color(t, band) == event_color(t, other),
{
    reveal_strlit("embed");
    reveal_strlit("train");
    reveal_strlit("predict");
    reveal_strlit("remember");
    reveal_strlit("recall");
    reveal_strlit("analyze");
    reveal_strlit("query");
    reveal_strlit("anomaly");
    reveal_strlit("dream");
    reveal_strlit("resonance");
    reveal_strlit("agent_connect");
    assert("embed"@.len() == 5 && "train"@.len() == 5 && "query"@.len() == 5 && "dream"@.len() == 5);
    assert("predict"@.len() == 7 && "analyze"@.len() == 7 && "anomaly"@.len() == 7);
    assert("remember"@.len() == 8 && "recall"@.len() == 6 && "resonance"@.len() == 9);
    assert("agent_connect"@.len() == 13);
    assert("embed"@[0] == 'e' && "train"@[0] == 't' && "query"@[0] == 'q' && "dream"@[0] == 'd');
    assert("predict"@[0] == 'p' && "analyze"@[2] == 'a' && "anomaly"@[2] == 'o');
}

/// Whether position `i` holds the first payload entry whose key is `key`.
pub open spec fn first_key_at(payload: Seq<(String, String)>, key: Seq<char>, i: int) -> bool {
    &&& 0 <= i < payload.len()
    &&& payload[i].0@ == key
    &&& forall|j: int| 0 <= j < i ==> payload[j].0@ != key
}

/// Whether `v` is what reading `key` from `payload` gives: the value of the
/// first entry with that key, or `default` where no entry has it.
pub open spec fn reads_as(
    payload: Seq<(String, String)>,
    key: Seq<char>,
    default: Seq<char>,
    v: Seq<char>,
) -> bool {
    ||| exists|i: int| first_key_at(payload, key, i) && v == payload[i].1@
    ||| (forall|j: int| 0 <= j < payload.len() ==> payload[j].0@ != key) && v == default
}

/// A lookup finds the first entry with the key, and nothing where no entry
/// has it.
pub proof fn lemma_lookup_first(p: Seq<(String, String)>, k: Seq<char>)
    ensures
        forall|i: int| first_key_at(p, k, i) ==> payload_lookup(p, k) == Some(p[i].1@),
        (forall|j: int| 0 <= j < p.len() ==> p[j].0@ != k) ==> payload_lookup(p, k) is None,
        payload_lookup(p, k) is Some ==> exists|i: int| first_key_at(p, k, i),
        payload_lookup(p, k) is None ==> forall|j: int| 0 <= j < p.len() ==> p[j].0@ != k,
    decreases p.len(),
{
    if p.len() > 0 {
        let q = p.drop_first();
        lemma_lookup_first(q, k);
        assert forall|i: int| first_key_at(p, k, i) implies payload_lookup(p, k) == Some(p[i].1@) by {
            if i > 0 {
                assert(p[0].0@ != k);
                assert(first_key_at(q, k, i - 1)) by {
                    assert forall|j: int| 0 <= j < i - 1 implies q[j].0@ != k by {
                        assert(q[j] == p[j + 1]);
                    }
                }
            }
        }
        if p[0].0@ != k {
            if payload_lookup(p, k) is Some {
                let i = choose|i: int| first_key_at(q, k, i);
                assert(first_key_at(p, k, i + 1)) by {
                    assert forall|j: int| 0 <= j < i + 1 implies p[j].0@ != k by {
                        if j > 0 {
                            assert(q[j - 1] == p[j]);
                        }
                    }
                }
            } else {
                assert forall|j: int| 0 <= j < p.len() implies p[j].0@ != k by {
                    if j > 0 {
                        assert(q[j - 1] == p[j]);
                    }
                }
            }
        } else {
            assert(first_key_at(p, k, 0));
        }
    }
}

/// Reading a key from a payload gives exactly one value.
pub proof fn lemma_reads_as(p: Seq<(String, String)>, k: Seq<char>, d: Seq<char>)
    ensures
        reads_as(p, k, d, payload_or(p, k, d)),
        forall|v: Seq<char>| #[trigger] reads_as(p, k, d, v) ==> v == payload_or(p, k, d),
{
    lemma_lookup_first(p, k);
    if payload_lookup(p, k) is Some {
        let i = choose|i: int| first_key_at(p, k, i);
        assert(first_key_at(p, k, i) && payload_or(p, k, d) == p[i].1@);
    }
    assert forall|v: Seq<char>| #[trigger] reads_as(p, k, d, v) implies v == payload_or(p, k, d) by {
        if exists|i: int| first_key_at(p, k, i) && v == p[i].1@ {
            let i = choose|i: int| first_key_at(p, k, i) && v == p[i].1@;
            assert(first_key_at(p, k, i));
        }
    }
}

/// The glyph of an event reads the payload as follows, where a key's value
/// is that of the first entry with the key, or the given default where no
/// entry has it: an embedding shows its "dims" in brackets, training its
/// "model", a prediction its confidence in percent, a remembering or recall
/// its "preview", an analysis its "finding" (or "analysis"), a query its
/// "query", an anomaly its "detail", a dream its "activity", a resonance its
/// "source_agent" and "target_agent" (or "?"), an agent connection its
/// "agent_id" (or "agent"); any other event shows a bullet and its type.
pub proof fn lemma_glyphs(t: Seq<char>, payload: Seq<(String, String)>, pct: Seq<char>)
    ensures
        forall|v: Seq<char>| #[trigger] reads_as(payload, "dims"@, ""@, v) ==> glyph_text("embed"@, payload, pct)
            == "🧮 embed ("@ + v + ")"@,
        forall|v: Seq<char>| #[trigger] reads_as(payload, "model"@, ""@, v) ==> glyph_text("train"@, payload, pct)
            == "🏋️ train "@ + v,
        glyph_text("predict"@, payload, pct) == "🧠 predict ("@ + pct + "% conf)"@,
        forall|v: Seq<char>| #[trigger] reads_as(payload, "preview"@, ""@, v) ==> glyph_text("remember"@, payload, pct)
            == "💾 remembered: "@ + v && glyph_text("recall"@, payload, pct) == "🔍 recall: "@ + v,
        forall|v: Seq<char>| #[trigger] reads_as(payload, "finding"@, "analysis"@, v) ==> glyph_text(
            "analyze"@,
            payload,
            pct,
        ) == "📊 "@ + v,
        forall|v: Seq<char>| #[trigger] reads_as(payload, "query"@, ""@, v) ==> glyph_text("query"@, payload, pct)
            == "🔍 query: "@ + v,
        forall|v: Seq<char>| #[trigger] reads_as(payload, "detail"@, ""@, v) ==> glyph_text("anomaly"@, payload, pct)
            == "⚠️ anomaly: "@ + v,
        forall|v: Seq<char>| #[trigger] reads_as(payload, "activity"@, ""@, v) ==> glyph_text("dream"@, payload, pct)
            == "💭 dreaming: "@ + v,
        forall|v: Seq<char>, w: Seq<char>|
            #[trigger] reads_as(payload, "source_agent"@, "?"@, v) && #[trigger] reads_as(
                payload,
                "target_agent"@,
                "?"@,
                w,
            ) ==> glyph_text("resonance"@, payload, pct) == "⚡ resonance: "@ + v + " ↔ "@ + w,
        forall|v: Seq<char>| #[trigger] reads_as(payload, "agent_id"@, "agent"@, v) ==> glyph_text(
            "agent_connect"@,
            payload,
            pct,
        ) == "📡 "@ + v + " joined"@,
        !known_event_type(t) ==> glyph_text(t, payload, pct) == "• "@ + t,
{
    reveal_strlit("embed");
    reveal_strlit("train");
    reveal_strlit("predict");
    reveal_strlit("remember");
    reveal_strlit("recall");
    reveal_strlit("analyze");
    reveal_strlit("query");
    reveal_strlit("anomaly");
    reveal_strlit("dream");
    reveal_strlit("resonance");
    reveal_strlit("agent_connect");
    assert("embed"@.len() == 5 && "train"@.len() == 5 && "query"@.len() == 5 && "dream"@.len() == 5);
    assert("predict"@.len() == 7 && "analyze"@.len() == 7 && "anomaly"@.len() == 7);
    assert("remember"@.len() == 8 && "recall"@.len() == 6 && "resonance"@.len() == 9);
    assert("agent_connect"@.len() == 13);
    assert("embed"@[0] == 'e' && "train"@[0] == 't' && "query"@[0] == 'q' && "dream"@[0] == 'd');
    assert("predict"@[0] == 'p' && "analyze"@[2] == 'a' && "anomaly"@[2] == 'o');
    lemma_reads_as(payload, "dims"@, ""@);
    lemma_reads_as(payload, "model"@, ""@);
    lemma_reads_as(payload, "preview"@, ""@);
    lemma_reads_as(payload, "finding"@, "analysis"@);
    lemma_reads_as(payload, "query"@, ""@);
    lemma_reads_as(payload, "detail"@, ""@);
    lemma_reads_as(payload, "activity"@, ""@);
    lemma_reads_as(payload, "source_agent"@, "?"@);
    lemma_reads_as(payload, "target_agent"@, "?"@);
    lemma_reads_as(payload, "agent_id"@, "agent"@);
}

} // verus!
