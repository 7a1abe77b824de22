//! Identifiers of the models the remote service can be asked for.

use vstd::prelude::*;

verus! {

/// A model identifier, carried on the wire as a fixed string.
#[derive(Clone, Copy, Debug, PartialEq, Eq, Structural)]
pub enum ModelID {
    Gpt3_5Turbo,
    Gpt3_5Turbo0301,
    TextEmbeddingAda002,
}

/// The wire string of a model identifier, as a sequence of characters.
pub open spec fn spec_model_chars(m: ModelID) -> Seq<char> {
    match m {
        ModelID::Gpt3_5Turbo => seq![
            'g', 'p', 't', '-', '3', '.', '5', '-', 't', 'u', 'r', 'b', 'o',
        ],
        ModelID::Gpt3_5Turbo0301 => seq![
            'g', 'p', 't', '-', '3', '.', '5', '-', 't', 'u', 'r', 'b', 'o', '-', '0', '3', '0',
            '1',
        ],
        ModelID::TextEmbeddingAda002 => seq![
            't', 'e', 'x', 't', '-', 'e', 'm', 'b', 'e', 'd', 'd', 'i', 'n', 'g', '-', 'a', 'd',
            'a', '-', '0', '0', '2',
        ],
    }
}

/// Which model identifier, if any, a wire string denotes.
pub open spec fn spec_model_of_chars(s: Seq<char>) -> Option<ModelID> {
    if s == spec_model_chars(ModelID::Gpt3_5Turbo) {
        Some(ModelID::Gpt3_5Turbo)
    } else if s == spec_model_chars(ModelID::Gpt3_5Turbo0301) {
        Some(ModelID::Gpt3_5Turbo0301)
    } else if s == spec_model_chars(ModelID::TextEmbeddingAda002) {
        Some(ModelID::TextEmbeddingAda002)
    } else {
        None
    }
}

/// The wire string of a model identifier, as characters.
pub fn model_chars(m: ModelID) -> (v: Vec<char>)
    ensures
        v@ == spec_model_chars(m),
{
    match m {
        ModelID::Gpt3_5Turbo => {
            let v = vec!['g', 'p', 't', '-', '3', '.', '5', '-', 't', 'u', 'r', 'b', 'o'];
            assert(v@ =~= spec_model_chars(ModelID::Gpt3_5Turbo));
            v
        },
        ModelID::Gpt3_5Turbo0301 => {
            let v = vec![
                'g',
                'p',
                't',
                '-',
                '3',
                '.',
                '5',
                '-',
                't',
                'u',
                'r',
                'b',
                'o',
                '-',
                '0',
                '3',
                '0',
                '1',
            ];
            assert(v@ =~= spec_model_chars(ModelID::Gpt3_5Turbo0301));
            v
        },
        ModelID::TextEmbeddingAda002 => {
            let v = vec![
                't',
                'e',
                'x',
                't',
                '-',
                'e',
                'm',
                'b',
                'e',
                'd',
                'd',
                'i',
                'n',
                'g',
                '-',
                'a',
                'd',
                'a',
                '-',
                '0',
                '0',
                '2',
            ];
            assert(v@ =~= spec_model_chars(ModelID::TextEmbeddingAda002));
            v
        },
    }
}

/// Which model identifier, if any, a character vector denotes.
pub fn model_of_chars(v: &Vec<char>) -> (r: Option<ModelID>)
    ensures
        r == spec_model_of_chars(v@),
{
    let turbo = model_chars(ModelID::Gpt3_5Turbo);
    if crate::json::chars_eq(v, &turbo) {
        return Some(ModelID::Gpt3_5Turbo);
    }
    let turbo0301 = model_chars(ModelID::Gpt3_5Turbo0301);
    if crate::json::chars_eq(v, &turbo0301) {
        return Some(ModelID::Gpt3_5Turbo0301);
    }
    let ada = model_chars(ModelID::TextEmbeddingAda002);
    if crate::json::chars_eq(v, &ada) {
        return Some(ModelID::TextEmbeddingAda002);
    }
    None
}

/// Decoding a model's own wire string gives that model back.
pub proof fn lemma_model_chars_injective(m: ModelID)
    ensures
        spec_model_of_chars(spec_model_chars(m)) == Some(m),
{
    assert(spec_model_chars(ModelID::Gpt3_5Turbo).len() == 13);
    assert(spec_model_chars(ModelID::Gpt3_5Turbo0301).len() == 18);
    assert(spec_model_chars(ModelID::TextEmbeddingAda002).len() == 22);
}

} // verus!
