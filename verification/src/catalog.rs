//! The rule catalog as shown to users: a listing of the built-in rules this library runs, and
//! the explanation of one rule (its description, default severity, whether it fixes, its mq
//! selector, its options and how to turn it off), as styled segments.
use crate::config::{option_keys, spec_option_keys};
use crate::message::{all_rule_ids, spec_all_rule_ids, RuleId};
use crate::rules::{default_severity, fixable, implemented, spaces, spaces_string, spec_default_severity, spec_fixable, spec_implemented};
use crate::text_report::{dimmed, dimmed_style, emit, emit_string, plain, plain_style, segs, Color, SegView, Segment, Style};
use vstd::prelude::*;

verus! {

/// `s` padded with spaces to `width` characters.
pub open spec fn pad(s: Seq<char>, width: nat) -> Seq<char> {
    if s.len() < width {
        s + spaces((width - s.len()) as nat)
    } else {
        s
    }
}

fn pad_exec(s: &str, width: usize) -> (r: String)
    ensures
        r@ == pad(s@, width as nat),
{
    let n = crate::text::chars_of(s).len();
    let mut r = String::from_str(s);
    if n < width {
        r.append(spaces_string(width - n).as_str());
    }
    r
}

pub open spec fn cyan() -> Style {
    Style { color: Color::BrightCyan, bold: false, dimmed: false }
}

/// The selector shown for a rule: its mq selector, or `-`.
pub open spec fn shown_selector(id: RuleId) -> Seq<char> {
    match id.spec_selector() {
        Some(x) => x.spec_text(),
        None => "-"@,
    }
}

/// One line of the listing: the rule's name, default severity, `fix` where it has fixes, and
/// its selector, in columns.
pub open spec fn listing_line(id: RuleId) -> Seq<SegView> {
    seq![
        (pad(id.spec_name(), 34), cyan()),
        (" "@, plain()),
        (pad(spec_default_severity(id).spec_name(), 8), plain()),
        (" "@, plain()),
        (pad(if spec_fixable(id) { "fix"@ } else { "-"@ }, 4), plain()),
        (" "@, plain()),
        (shown_selector(id), dimmed()),
        ("\n"@, plain()),
    ]
}

/// The listing lines of the rules of `ids` this library runs, in order.
pub open spec fn listing(ids: Seq<RuleId>) -> Seq<SegView>
    decreases ids.len(),
{
    if ids.len() == 0 {
        Seq::empty()
    } else {
        listing(ids.drop_last()) + if spec_implemented(ids.last()) {
            listing_line(ids.last())
        } else {
            Seq::empty()
        }
    }
}

fn listing_line_exec(out: &mut Vec<Segment>, id: RuleId)
    ensures
        segs(final(out)@) == segs(old(out)@) + listing_line(id),
{
    emit_string(out, pad_exec(id.as_str(), 34), Style { color: Color::BrightCyan, bold: false, dimmed: false });
    emit(out, " ", plain_style());
    emit_string(out, pad_exec(default_severity(id).as_str(), 8), plain_style());
    emit(out, " ", plain_style());
    let fix_mark = if fixable(id) {
        "fix"
    } else {
        "-"
    };
    emit_string(out, pad_exec(fix_mark, 4), plain_style());
    emit(out, " ", plain_style());
    match id.selector() {
        Some(x) => emit_string(out, x.text(), dimmed_style()),
        None => emit(out, "-", dimmed_style()),
    }
    emit(out, "\n", plain_style());
    proof {
        assert(segs(out@) =~= segs(old(out)@) + listing_line(id));
    }
}

/// The listing of every built-in rule this library runs, in rule order.
pub fn rule_listing() -> (r: Vec<Segment>)
    ensures
        segs(r@) == listing(spec_all_rule_ids()),
{
    let ids = all_rule_ids();
    let mut out: Vec<Segment> = Vec::new();
    let mut i: usize = 0;
    proof {
        assert(segs(out@) =~= listing(ids@.take(0)));
    }
    while i < ids.len()
        invariant
            i <= ids@.len(),
            ids@ == spec_all_rule_ids(),
            segs(out@) == listing(ids@.take(i as int)),
        decreases ids@.len() - i,
    {
        let id = ids[i];
        proof {
            assert(ids@.take(i + 1).drop_last() =~= ids@.take(i as int));
            assert(ids@.take(i + 1).last() == id);
        }
        if implemented(id) {
            listing_line_exec(&mut out, id);
        } else {
            proof {
                assert(segs(out@) =~= segs(out@) + Seq::<SegView>::empty());
            }
        }
        i = i + 1;
    }
    proof {
        assert(ids@.take(ids@.len() as int) =~= ids@);
    }
    out
}

/// `keys` joined with `, `.
pub open spec fn comma_joined(keys: Seq<Seq<char>>) -> Seq<char>
    decreases keys.len(),
{
    if keys.len() == 0 {
        Seq::empty()
    } else if keys.len() == 1 {
        keys[0]
    } else {
        comma_joined(keys.drop_last()) + ", "@ + keys.last()
    }
}

/// The explanation of rule `id`.
pub open spec fn explanation(id: RuleId) -> Seq<SegView> {
    let keys = spec_option_keys(id);
    seq![
        (id.spec_name(), Style { color: Color::BrightCyan, bold: true, dimmed: false }),
        ("\n"@, plain()),
        (id.spec_description() + "\n"@, plain()),
        ("default severity: "@ + spec_default_severity(id).spec_name() + "\n"@, plain()),
        ("fixable:          "@ + (if spec_fixable(id) { "yes"@ } else { "no"@ }) + "\n"@, plain()),
    ] + (match id.spec_selector() {
        Some(x) => seq![("mq selector:      "@ + x.spec_text() + "\n"@, plain())],
        None => Seq::empty(),
    }) + seq![
        ((if keys.len() == 0 {
            "options:          none"@
        } else {
            "options:          "@ + comma_joined(keys)
        }) + "\n"@, plain()),
        ("disable it with:  [rules]\n                   "@ + id.spec_name() + " = false\n"@, plain()),
    ] + (if spec_implemented(id) {
        Seq::<SegView>::empty()
    } else {
        seq![("not carried:      this library has no rule for it; it reports nothing\n"@, plain())]
    })
}

/// Explains rule `id`: its description, default severity, whether it fixes what it finds, its
/// mq selector, its options, and how to turn it off; and, for a rule id this library carries
/// no rule for, that it reports nothing.
pub fn explain_rule(id: RuleId) -> (r: Vec<Segment>)
    ensures
        segs(r@) == explanation(id),
{
    let mut out: Vec<Segment> = Vec::new();
    emit(&mut out, id.as_str(), Style { color: Color::BrightCyan, bold: true, dimmed: false });
    emit(&mut out, "\n", plain_style());
    let mut d = String::from_str(id.description());
    d.append("\n");
    emit_string(&mut out, d, plain_style());
    let mut sev = String::from_str("default severity: ");
    sev.append(default_severity(id).as_str());
    sev.append("\n");
    emit_string(&mut out, sev, plain_style());
    let mut fx = String::from_str("fixable:          ");
    fx.append(if fixable(id) {
        "yes"
    } else {
        "no"
    });
    fx.append("\n");
    emit_string(&mut out, fx, plain_style());
    let ghost head = segs(out@);
    match id.selector() {
        Some(x) => {
            let mut sel = String::from_str("mq selector:      ");
            sel.append(x.text().as_str());
            sel.append("\n");
            emit_string(&mut out, sel, plain_style());
        },
        None => {},
    }
    let ghost mid = segs(out@);
    let keys = option_keys(id);
    let ghost kv = keys@.map_values(|k: &'static str| k@);
    let mut opts = String::from_str("options:          ");
    if keys.len() == 0 {
        opts = String::from_str("options:          none");
    } else {
        let mut i: usize = 0;
        while i < keys.len()
            invariant
                1 <= keys@.len(),
                i <= keys@.len(),
                kv == keys@.map_values(|k: &'static str| k@),
                i == 0 ==> opts@ == "options:          "@,
                i > 0 ==> opts@ == "options:          "@ + comma_joined(kv.take(i as int)),
            decreases keys@.len() - i,
        {
            proof {
                assert(kv.take(i + 1).drop_last() =~= kv.take(i as int));
                assert(kv[i as int] == keys@[i as int]@);
            }
            if i > 0 {
                opts.append(", ");
            }
            opts.append(keys[i]);
            proof {
                if i == 0 {
                    assert(kv.take(1) =~= seq![kv[0]]);
                    assert(opts@ =~= "options:          "@ + comma_joined(kv.take(1)));
                } else {
                    assert(opts@ =~= "options:          "@ + comma_joined(kv.take(i + 1)));
                }
            }
            i = i + 1;
        }
        proof {
            assert(kv.take(keys@.len() as int) =~= kv);
        }
    }
    opts.append("\n");
    emit_string(&mut out, opts, plain_style());
    let mut off = String::from_str("disable it with:  [rules]\n                   ");
    off.append(id.as_str());
    off.append(" = false\n");
    emit_string(&mut out, off, plain_style());
    if !implemented(id) {
        emit(&mut out, "not carried:      this library has no rule for it; it reports nothing\n", plain_style());
    }
    proof {
        assert(kv == spec_option_keys(id));
        assert(segs(out@) =~= explanation(id));
    }
    out
}

} // verus!
