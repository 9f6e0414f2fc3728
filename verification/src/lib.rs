//! The front end and bookkeeping of a J interpreter: cutting sentences into
//! words, the table of primitives, gathering control structures, the
//! parsing rules, names and locales, the input a sentence waits for, frames
//! and cells, the display of arrays, gerunds, and the foreign conjunction.

mod adverbs;
mod assign;
mod blocks;
mod boxes;
mod cells;
mod char_array;
mod controls;
mod cor;
mod cut;
mod display;
mod error;
mod feed;
mod flatten;
mod foreign;
mod gerund;
mod help;
mod locales;
mod maybe_unit;
mod modifiers;
mod names;
mod number;
mod parse;
mod primitives;
mod promote;
pub mod proto;
mod scan;
mod semi;
mod text;
mod words;

pub use adverbs::AdverbImpl;
pub use assign::{split_whitespace, string_assignment};
pub use blocks::{for_parts, if_step, line_ranges, try_parts, IfAction};
pub use boxes::{br_box, br_box_checked};
pub use cells::{
    cell_pairs, common_dims, frame_of, law_cells_cover, law_cut_covers, law_frame_is_front, law_frames_agree, law_generate_cells, law_macrocells, generate_cells, generate_frames, macrocells, push_with_shape, rank_extend_shape,
    rank_split, size_of_shape_checked,
};
pub use char_array::Char;
pub use controls::{
    create_def, find_do, if_block_starts, law_def_modes, law_infer_type_by_names, infer_type, is_control, resolve_controls, ControlError,
    DefKind, Token,
};
pub use cor::{control_tokens, cor, law_cor_modes, law_resolving_without_controls, scan_error, Cor, CorBody};
pub use cut::{cut_frets, cut_mode, cut_positions};
pub use display::{
    br, br_char, br_layout, compute_dimension_spacing, j_format_i64, j_format_u8,
    print_dimension_markings,
};
pub use error::JError;
pub use feed::{Feed, InputBuffers, InputBuffersV};
pub use flatten::{fill_promote_reshape, law_filled_size};
pub use foreign::{
    arg_to_string, arg_to_string_list, dump_hex_words, foreign, hex_word, int_bytes, os_type_code, script_options, shell_out, Foreign,
    ForeignRow, ForeignVerb, ScriptOptionError, Unsupported,
};
pub use gerund::{agenda, law_agenda_picks, law_untie_conjunction, law_untie_fork, law_untie_noun, law_untie_primitive, law_untie_unsupported, untie, Ar, Untied, UntiedV};
pub use help::{
    completion, help, highlights, hint, primitive, search_help, CommandHint, Primitive, WordClass,
};
pub use locales::{
    law_assign_global_elsewhere, law_lookup_after_assign_global, law_lookup_after_assign_local,
    law_lookup_after_erase, law_parse_name_round_trip, parse_name, Locales, LocalesV, Names,
};
pub use maybe_unit::MaybeUnit;
pub use modifiers::{
    amend, bdot_mode, gerund_shape, infixes, law_amend_untouched, law_chunks_cover, power_counts,
    power_plan, prefixes, quote, quote_ranks, suffixes, PowerArg, PowerPlan, QuoteLeft, QuoteRight,
    QuoteVerb,
};
pub use names::{name_code, name_erase, name_status, namelist, namelist_check};
pub use number::{demote_rational, kind_of_term, kind_before_float_demotion, scan_num_token, NumTerm, NumTermV};
pub use parse::{
    law_parse_table, law_reduction_shrinks, law_reductions_consume, law_template_order, parse_rule, resolve_start, template, Fragment, Item, Kind, Parser,
    ParserV, Rule, Slot,
};
pub use primitives::{
    primitive_adverbs, primitive_conjunctions, primitive_verbs, AdverbEntry, ConjEntry, ConjForm,
    VerbEntry, VerbForm,
};
pub use promote::{
    flip, infer_kind_from_boxes, law_inferred_kind_is_highest, law_promotion_is_symmetric, promo,
    ArrayKind, NumKind,
};
pub use scan::{
    law_scan_positions, scan, scan_litnumarray, scan_litstring_at, scan_name_at, scan_primitive_at,
    scan_with_locations, str_to_primitive, ScanError,
};
pub use semi::{law_quote_then_scan, quote_string, when_verb, when_verb_noun, MaybeVerb, VerbNoun};
pub use text::{chars_of, same_chars, slice_of};
pub use words::{Literal, LiteralV, Word, WordV};

