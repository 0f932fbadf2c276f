//! The byte-template engine: a single-pass scan over a template in three
//! states.  Literal bytes are copied; `%%` emits one percent sign; `%name%`
//! is replaced by the value of the first key equal to `name`, or by
//! `UNMATCHED KEY: name` when no key matches.  A placeholder left open at
//! the end of the template is dropped.

use vstd::prelude::*;
use crate::bytes::{append_ascii, append_bytes, ascii_seq, spec_index_of, vec_byte_views};
use crate::http::ReadInto;

verus! {

pub const PERCENT: u8 = 37;

/// The scanner's position: copying literals, one percent sign seen, or
/// accumulating a placeholder name since some index.
pub enum TemplateMode {
    Literal,
    Escaping,
    Key(int),
}

/// What a closed placeholder emits: the matching value, or the unmatched-key
/// notice.
pub open spec fn spec_substitution(keys: Seq<Seq<u8>>, vals: Seq<Seq<u8>>, key: Seq<u8>) -> Seq<
    u8,
> {
    let idx = spec_index_of(keys, key);
    if idx >= 0 {
        vals[idx]
    } else {
        ascii_seq("UNMATCHED KEY: "@) + key
    }
}

/// The bytes the scan emits from position `i` onward in mode `m`.
pub open spec fn spec_render_from(
    t: Seq<u8>,
    keys: Seq<Seq<u8>>,
    vals: Seq<Seq<u8>>,
    i: int,
    m: TemplateMode,
) -> Seq<u8>
    decreases t.len() - i,
{
    if i < 0 || i >= t.len() {
        Seq::empty()
    } else {
        match m {
            TemplateMode::Literal => if t[i] == PERCENT {
                spec_render_from(t, keys, vals, i + 1, TemplateMode::Escaping)
            } else {
                seq![t[i]] + spec_render_from(t, keys, vals, i + 1, TemplateMode::Literal)
            },
            TemplateMode::Escaping => if t[i] == PERCENT {
                seq![PERCENT] + spec_render_from(t, keys, vals, i + 1, TemplateMode::Literal)
            } else {
                spec_render_from(t, keys, vals, i + 1, TemplateMode::Key(i))
            },
            TemplateMode::Key(start) => if t[i] == PERCENT {
                spec_substitution(keys, vals, t.subrange(start, i)) + spec_render_from(
                    t,
                    keys,
                    vals,
                    i + 1,
                    TemplateMode::Literal,
                )
            } else {
                spec_render_from(t, keys, vals, i + 1, TemplateMode::Key(start))
            },
        }
    }
}

/// The full rendering of a template against its keys and values.
pub open spec fn spec_render(t: Seq<u8>, keys: Seq<Seq<u8>>, vals: Seq<Seq<u8>>) -> Seq<u8> {
    spec_render_from(t, keys, vals, 0, TemplateMode::Literal)
}

/// The scanner's position, executably.
enum ScanState {
    Literal,
    Escaping,
    Key(usize),
}

impl ScanState {
    spec fn mode(self) -> TemplateMode {
        match self {
            ScanState::Literal => TemplateMode::Literal,
            ScanState::Escaping => TemplateMode::Escaping,
            ScanState::Key(start) => TemplateMode::Key(start as int),
        }
    }
}

/// Renders `template` against index-corresponding `keys` and `values`.
pub fn render_template(template: &[u8], keys: &Vec<Vec<u8>>, values: &Vec<Vec<u8>>) -> (out: Vec<
    u8,
>)
    requires
        keys@.len() == values@.len(),
    ensures
        out@ == spec_render(template@, vec_byte_views(keys@), vec_byte_views(values@)),
{
    let ghost key_views = vec_byte_views(keys@);
    let ghost val_views = vec_byte_views(values@);
    let mut out: Vec<u8> = Vec::new();
    let mut state = ScanState::Literal;
    let mut i: usize = 0;
    while i < template.len()
        invariant
            i <= template@.len(),
            (match state {
                ScanState::Key(start) => start < i,
                _ => true,
            }),
            spec_render(template@, key_views, val_views) == out@ + spec_render_from(
                template@,
                key_views,
                val_views,
                i as int,
                state.mode(),
            ),
            key_views == vec_byte_views(keys@),
            val_views == vec_byte_views(values@),
            keys@.len() == values@.len(),
        decreases template@.len() - i,
    {
        let b = template[i];
        match state {
            ScanState::Literal => {
                if b == PERCENT {
                    state = ScanState::Escaping;
                } else {
                    out.push(b);
                    proof {
                        assert(out@ =~= out@.drop_last() + seq![template@[i as int]]);
                    }
                }
            },
            ScanState::Escaping => {
                if b == PERCENT {
                    out.push(PERCENT);
                    state = ScanState::Literal;
                    proof {
                        assert(out@ =~= out@.drop_last() + seq![PERCENT]);
                    }
                } else {
                    state = ScanState::Key(i);
                }
            },
            ScanState::Key(start) => {
                if b == PERCENT {
                    let key = &template[start..i];
                    match crate::bytes::index_of(keys, key) {
                        Some(index) => {
                            proof {
                                assert(val_views[index as int] == values@[index as int]@);
                            }
                            append_bytes(&mut out, values[index].as_slice());
                        },
                        None => {
                            proof {
                                reveal_strlit("UNMATCHED KEY: ");
                            }
                            append_ascii(&mut out, "UNMATCHED KEY: ");
                            append_bytes(&mut out, key);
                        },
                    }
                    state = ScanState::Literal;
                    proof {
                        assert(out@ + spec_render_from(
                            template@,
                            key_views,
                            val_views,
                            i + 1,
                            TemplateMode::Literal,
                        ) =~= spec_render(template@, key_views, val_views));
                    }
                }
            },
        }
        i = i + 1;
    }
    out
}

pub struct BodyTemplate<'a> {
    pub template: &'a [u8],
    pub keys: Vec<Vec<u8>>,
    pub values: Vec<Vec<u8>>,
}

impl<'a> ReadInto for BodyTemplate<'a> {
    open spec fn rendered(&self) -> Seq<u8> {
        spec_render(self.template@, vec_byte_views(self.keys@), vec_byte_views(self.values@))
    }

    open spec fn render_wf(&self) -> bool {
        self.keys@.len() == self.values@.len()
    }

    fn read_into(&mut self, destination: &mut Vec<u8>) {
        let rendered = render_template(self.template, &self.keys, &self.values);
        append_bytes(destination, rendered.as_slice());
    }
}

} // verus!
