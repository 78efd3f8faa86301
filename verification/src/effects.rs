//! The bundled video-effect plugin: which effect a host asks for by name.
use crate::bytes::bytes_equal;
use crate::sdk::ABI_VERSION;
use vstd::prelude::*;

verus! {

/// The effects the bundled plugin provides.
#[derive(Clone, Copy, Debug, PartialEq, Eq, Structural)]
pub enum Effect {
    Color,
    Sharpen,
    Pixelate,
}

/// The longest effect name a host may ask for.
pub const MAX_EFFECT_NAME: usize = 128;

pub open spec fn effect_name(e: Effect) -> Seq<char> {
    match e {
        Effect::Color => "openuuyc.effects.color"@,
        Effect::Sharpen => "openuuyc.effects.sharpen"@,
        Effect::Pixelate => "openuuyc.effects.pixelate"@,
    }
}

/// The bytes of an ASCII name.
pub open spec fn ascii_bytes(s: Seq<char>) -> Seq<u8> {
    Seq::new(s.len(), |i: int| s[i] as u8)
}

/// The effect a host gets for `name` under ABI `version`: the host must
/// speak this plugin's ABI and the name must be one of the effect names.
pub open spec fn spec_select(version: u32, name: Seq<u8>) -> Option<Effect> {
    if version != ABI_VERSION || name.len() > MAX_EFFECT_NAME {
        None
    } else if name == ascii_bytes(effect_name(Effect::Color)) {
        Some(Effect::Color)
    } else if name == ascii_bytes(effect_name(Effect::Sharpen)) {
        Some(Effect::Sharpen)
    } else if name == ascii_bytes(effect_name(Effect::Pixelate)) {
        Some(Effect::Pixelate)
    } else {
        None
    }
}

fn name_of(e: Effect) -> (b: &'static [u8])
    ensures
        b@ == ascii_bytes(effect_name(e)),
{
    match e {
        Effect::Color => {
            let s = "openuuyc.effects.color";
            proof {
                reveal_strlit("openuuyc.effects.color");
                vstd::string::is_ascii_spec_bytes(s);
            }
            let b = s.as_bytes();
            assert(b@ =~= ascii_bytes(effect_name(e)));
            b
        },
        Effect::Sharpen => {
            let s = "openuuyc.effects.sharpen";
            proof {
                reveal_strlit("openuuyc.effects.sharpen");
                vstd::string::is_ascii_spec_bytes(s);
            }
            let b = s.as_bytes();
            assert(b@ =~= ascii_bytes(effect_name(e)));
            b
        },
        Effect::Pixelate => {
            let s = "openuuyc.effects.pixelate";
            proof {
                reveal_strlit("openuuyc.effects.pixelate");
                vstd::string::is_ascii_spec_bytes(s);
            }
            let b = s.as_bytes();
            assert(b@ =~= ascii_bytes(effect_name(e)));
            b
        },
    }
}

/// Answers a host's query for an effect by name.
pub fn select_effect(version: u32, name: &[u8]) -> (r: Option<Effect>)
    ensures
        r == spec_select(version, name@),
{
    if version != ABI_VERSION || name.len() > MAX_EFFECT_NAME {
        return None;
    }
    if bytes_equal(name, name_of(Effect::Color)) {
        Some(Effect::Color)
    } else if bytes_equal(name, name_of(Effect::Sharpen)) {
        Some(Effect::Sharpen)
    } else if bytes_equal(name, name_of(Effect::Pixelate)) {
        Some(Effect::Pixelate)
    } else {
        None
    }
}

/// A host speaking this plugin's ABI gets each effect by its own name, and
/// gets an effect only by that effect's name and only under this ABI.
pub proof fn lemma_effects_by_name(version: u32, name: Seq<u8>, e: Effect)
    ensures
        spec_select(ABI_VERSION, ascii_bytes(effect_name(e))) == Some(e),
        spec_select(version, name) matches Some(f) ==> version == ABI_VERSION && name
            == ascii_bytes(effect_name(f)),
{
    reveal_strlit("openuuyc.effects.color");
    reveal_strlit("openuuyc.effects.sharpen");
    reveal_strlit("openuuyc.effects.pixelate");
    let c = ascii_bytes(effect_name(Effect::Color));
    let sh = ascii_bytes(effect_name(Effect::Sharpen));
    let px = ascii_bytes(effect_name(Effect::Pixelate));
    assert(c.len() == 22 && sh.len() == 24 && px.len() == 25);
    assert(c != sh && c != px && sh != px);
}

} // verus!
