//! The names of the marker catalog are distinct words of lower-case
//! letters, digits and underscores: looking a marker's name up gives the
//! marker back.

use vstd::prelude::*;
use crate::markers::{marker_name_spec, marker_id_spec, find_marker, MARKER_COUNT};
use crate::imp::store::{seq_lt, lemma_seq_lt_trans, lemma_seq_lt_irrefl};

verus! {

/// A character of a catalog name.
pub open spec fn name_char(c: char) -> bool {
    ('a' <= c <= 'z') || ('0' <= c <= '9') || c == '_'
}

/// A catalog name: a non-empty word of [`name_char`]s.
pub open spec fn plain_name(w: Seq<char>) -> bool {
    w.len() > 0 && forall|k: int| 0 <= k < w.len() ==> name_char(#[trigger] w[k])
}

/// Two words that agree before `d` and differ at `d` are ordered by their
/// characters at `d`.
proof fn lemma_seq_lt_at(a: Seq<char>, b: Seq<char>, d: int)
    requires
        0 <= d < a.len(),
        d < b.len(),
        forall|k: int| 0 <= k < d ==> a[k] == b[k],
        (a[d] as u32) < (b[d] as u32),
    ensures
        seq_lt(a, b),
    decreases d,
{
    if d > 0 {
        assert forall|k: int| 0 <= k < d - 1 implies a.drop_first()[k] == b.drop_first()[k] by {
            assert(a[k + 1] == b[k + 1]);
        }
        lemma_seq_lt_at(a.drop_first(), b.drop_first(), d - 1);
    }
}

/// A proper prefix comes first.
proof fn lemma_seq_lt_prefix(a: Seq<char>, b: Seq<char>)
    requires
        a.len() < b.len(),
        forall|k: int| 0 <= k < a.len() ==> a[k] == b[k],
    ensures
        seq_lt(a, b),
    decreases a.len(),
{
    if a.len() > 0 {
        assert forall|k: int| 0 <= k < a.len() - 1 implies a.drop_first()[k] == b.drop_first()[k] by {
            assert(a[k + 1] == b[k + 1]);
        }
        lemma_seq_lt_prefix(a.drop_first(), b.drop_first());
    }
}


proof fn lemma_step_0(i: int)
    requires
        2 <= i < 14,
    ensures
        seq_lt(marker_name_spec(i), marker_name_spec(i + 1)),
{
    if i == 2 {
        reveal_strlit("array_comment_missing_newline");
        reveal_strlit("array_of_tables_inline_array");
        lemma_seq_lt_at("array_comment_missing_newline"@, "array_of_tables_inline_array"@, 6);
    } else if i == 3 {
        reveal_strlit("array_of_tables_inline_array");
        reveal_strlit("array_open_after_ws_eof");
        lemma_seq_lt_at("array_of_tables_inline_array"@, "array_open_after_ws_eof"@, 7);
    } else if i == 4 {
        reveal_strlit("array_open_after_ws_eof");
        reveal_strlit("array_open_eof");
        lemma_seq_lt_at("array_open_after_ws_eof"@, "array_open_eof"@, 11);
    } else if i == 5 {
        reveal_strlit("array_open_eof");
        reveal_strlit("array_sep_eof_after_comma");
        lemma_seq_lt_at("array_open_eof"@, "array_sep_eof_after_comma"@, 6);
    } else if i == 6 {
        reveal_strlit("array_sep_eof_after_comma");
        reveal_strlit("array_table_empty_name");
        lemma_seq_lt_at("array_sep_eof_after_comma"@, "array_table_empty_name"@, 6);
    } else if i == 7 {
        reveal_strlit("array_table_empty_name");
        reveal_strlit("array_table_missing_close_char");
        lemma_seq_lt_at("array_table_empty_name"@, "array_table_missing_close_char"@, 12);
    } else if i == 8 {
        reveal_strlit("array_table_missing_close_char");
        reveal_strlit("array_table_missing_close_eof");
        lemma_seq_lt_at("array_table_missing_close_char"@, "array_table_missing_close_eof"@, 26);
    } else if i == 9 {
        reveal_strlit("array_table_missing_close_eof");
        reveal_strlit("array_table_open_eof");
        lemma_seq_lt_at("array_table_missing_close_eof"@, "array_table_open_eof"@, 12);
    } else if i == 10 {
        reveal_strlit("array_table_open_eof");
        reveal_strlit("array_table_redefines_closed_table");
        lemma_seq_lt_at("array_table_open_eof"@, "array_table_redefines_closed_table"@, 12);
    } else if i == 11 {
        reveal_strlit("array_table_redefines_closed_table");
        reveal_strlit("array_table_redefines_inline_array");
        lemma_seq_lt_at("array_table_redefines_closed_table"@, "array_table_redefines_inline_array"@, 22);
    } else if i == 12 {
        reveal_strlit("array_table_redefines_inline_array");
        reveal_strlit("array_table_redefines_inline_table");
        lemma_seq_lt_at("array_table_redefines_inline_array"@, "array_table_redefines_inline_table"@, 29);
    } else if i == 13 {
        reveal_strlit("array_table_redefines_inline_table");
        reveal_strlit("array_table_redefines_std_table");
        lemma_seq_lt_at("array_table_redefines_inline_table"@, "array_table_redefines_std_table"@, 22);
    }
}

proof fn lemma_step_1(i: int)
    requires
        14 <= i < 26,
    ensures
        seq_lt(marker_name_spec(i), marker_name_spec(i + 1)),
{
    if i == 14 {
        reveal_strlit("array_table_redefines_std_table");
        reveal_strlit("array_value_eof_after_value");
        lemma_seq_lt_at("array_table_redefines_std_table"@, "array_value_eof_after_value"@, 6);
    } else if i == 15 {
        reveal_strlit("array_value_eof_after_value");
        reveal_strlit("array_value_invalid_separator");
        lemma_seq_lt_at("array_value_eof_after_value"@, "array_value_invalid_separator"@, 12);
    } else if i == 16 {
        reveal_strlit("array_value_invalid_separator");
        reveal_strlit("array_values_expected_value");
        lemma_seq_lt_at("array_value_invalid_separator"@, "array_values_expected_value"@, 11);
    } else if i == 17 {
        reveal_strlit("array_values_expected_value");
        reveal_strlit("bare_key_invalid_start");
        lemma_seq_lt_at("array_values_expected_value"@, "bare_key_invalid_start"@, 0);
    } else if i == 18 {
        reveal_strlit("bare_key_invalid_start");
        reveal_strlit("basic_string_invalid_char");
        lemma_seq_lt_at("bare_key_invalid_start"@, "basic_string_invalid_char"@, 2);
    } else if i == 19 {
        reveal_strlit("basic_string_invalid_char");
        reveal_strlit("basic_string_missing_close_eof");
        lemma_seq_lt_at("basic_string_invalid_char"@, "basic_string_missing_close_eof"@, 13);
    } else if i == 20 {
        reveal_strlit("basic_string_missing_close_eof");
        reveal_strlit("basic_string_newline");
        lemma_seq_lt_at("basic_string_missing_close_eof"@, "basic_string_newline"@, 13);
    } else if i == 21 {
        reveal_strlit("basic_string_newline");
        reveal_strlit("boolean_invalid");
        lemma_seq_lt_at("basic_string_newline"@, "boolean_invalid"@, 1);
    } else if i == 22 {
        reveal_strlit("boolean_invalid");
        reveal_strlit("boolean_invalid_allcaps_true");
        lemma_seq_lt_prefix("boolean_invalid"@, "boolean_invalid_allcaps_true"@);
    } else if i == 23 {
        reveal_strlit("boolean_invalid_allcaps_true");
        reveal_strlit("boolean_invalid_capital_false");
        lemma_seq_lt_at("boolean_invalid_allcaps_true"@, "boolean_invalid_capital_false"@, 16);
    } else if i == 24 {
        reveal_strlit("boolean_invalid_capital_false");
        reveal_strlit("boolean_invalid_capital_true");
        lemma_seq_lt_at("boolean_invalid_capital_false"@, "boolean_invalid_capital_true"@, 24);
    } else if i == 25 {
        reveal_strlit("boolean_invalid_capital_true");
        reveal_strlit("comment_invalid_char");
        lemma_seq_lt_at("boolean_invalid_capital_true"@, "comment_invalid_char"@, 0);
    }
}

proof fn lemma_step_2(i: int)
    requires
        26 <= i < 38,
    ensures
        seq_lt(marker_name_spec(i), marker_name_spec(i + 1)),
{
    if i == 26 {
        reveal_strlit("comment_invalid_char");
        reveal_strlit("date_invalid_day");
        lemma_seq_lt_at("comment_invalid_char"@, "date_invalid_day"@, 0);
    } else if i == 27 {
        reveal_strlit("date_invalid_day");
        reveal_strlit("date_invalid_month");
        lemma_seq_lt_at("date_invalid_day"@, "date_invalid_month"@, 13);
    } else if i == 28 {
        reveal_strlit("date_invalid_month");
        reveal_strlit("date_mday_first_char_not_digit");
        lemma_seq_lt_at("date_invalid_month"@, "date_mday_first_char_not_digit"@, 5);
    } else if i == 29 {
        reveal_strlit("date_mday_first_char_not_digit");
        reveal_strlit("date_mday_second_char_not_digit");
        lemma_seq_lt_at("date_mday_first_char_not_digit"@, "date_mday_second_char_not_digit"@, 10);
    } else if i == 30 {
        reveal_strlit("date_mday_second_char_not_digit");
        reveal_strlit("date_month_first_char_not_digit");
        lemma_seq_lt_at("date_mday_second_char_not_digit"@, "date_month_first_char_not_digit"@, 6);
    } else if i == 31 {
        reveal_strlit("date_month_first_char_not_digit");
        reveal_strlit("date_month_second_char_not_digit");
        lemma_seq_lt_at("date_month_first_char_not_digit"@, "date_month_second_char_not_digit"@, 11);
    } else if i == 32 {
        reveal_strlit("date_month_second_char_not_digit");
        reveal_strlit("date_year_first_char_not_digit");
        lemma_seq_lt_at("date_month_second_char_not_digit"@, "date_year_first_char_not_digit"@, 5);
    } else if i == 33 {
        reveal_strlit("date_year_first_char_not_digit");
        reveal_strlit("date_year_fourth_char_not_digit");
        lemma_seq_lt_at("date_year_first_char_not_digit"@, "date_year_fourth_char_not_digit"@, 11);
    } else if i == 34 {
        reveal_strlit("date_year_fourth_char_not_digit");
        reveal_strlit("date_year_second_char_not_digit");
        lemma_seq_lt_at("date_year_fourth_char_not_digit"@, "date_year_second_char_not_digit"@, 10);
    } else if i == 35 {
        reveal_strlit("date_year_second_char_not_digit");
        reveal_strlit("date_year_third_char_not_digit");
        lemma_seq_lt_at("date_year_second_char_not_digit"@, "date_year_third_char_not_digit"@, 10);
    } else if i == 36 {
        reveal_strlit("date_year_third_char_not_digit");
        reveal_strlit("datetime_expect_partial_time_after_delim");
        lemma_seq_lt_at("date_year_third_char_not_digit"@, "datetime_expect_partial_time_after_delim"@, 4);
    } else if i == 37 {
        reveal_strlit("datetime_expect_partial_time_after_delim");
        reveal_strlit("dotted_key_missing_segment");
        lemma_seq_lt_at("datetime_expect_partial_time_after_delim"@, "dotted_key_missing_segment"@, 1);
    }
}

proof fn lemma_step_3(i: int)
    requires
        38 <= i < 50,
    ensures
        seq_lt(marker_name_spec(i), marker_name_spec(i + 1)),
{
    if i == 38 {
        reveal_strlit("dotted_key_missing_segment");
        reveal_strlit("dotted_key_redefines_array_table");
        lemma_seq_lt_at("dotted_key_missing_segment"@, "dotted_key_redefines_array_table"@, 11);
    } else if i == 39 {
        reveal_strlit("dotted_key_redefines_array_table");
        reveal_strlit("dotted_key_redefines_inline_table");
        lemma_seq_lt_at("dotted_key_redefines_array_table"@, "dotted_key_redefines_inline_table"@, 21);
    } else if i == 40 {
        reveal_strlit("dotted_key_redefines_inline_table");
        reveal_strlit("dotted_key_redefines_std_table");
        lemma_seq_lt_at("dotted_key_redefines_inline_table"@, "dotted_key_redefines_std_table"@, 21);
    } else if i == 41 {
        reveal_strlit("dotted_key_redefines_std_table");
        reveal_strlit("float_duplicate_exponent");
        lemma_seq_lt_at("dotted_key_redefines_std_table"@, "float_duplicate_exponent"@, 0);
    } else if i == 42 {
        reveal_strlit("float_duplicate_exponent");
        reveal_strlit("float_exp_no_digit_after_e");
        lemma_seq_lt_at("float_duplicate_exponent"@, "float_exp_no_digit_after_e"@, 6);
    } else if i == 43 {
        reveal_strlit("float_exp_no_digit_after_e");
        reveal_strlit("float_exp_only_exp_overflow_i32");
        lemma_seq_lt_at("float_exp_no_digit_after_e"@, "float_exp_only_exp_overflow_i32"@, 10);
    } else if i == 44 {
        reveal_strlit("float_exp_only_exp_overflow_i32");
        reveal_strlit("float_exp_only_exp_underflow_i32");
        lemma_seq_lt_at("float_exp_only_exp_overflow_i32"@, "float_exp_only_exp_underflow_i32"@, 19);
    } else if i == 45 {
        reveal_strlit("float_exp_only_exp_underflow_i32");
        reveal_strlit("float_exp_only_final_overflow");
        lemma_seq_lt_at("float_exp_only_exp_underflow_i32"@, "float_exp_only_final_overflow"@, 15);
    } else if i == 46 {
        reveal_strlit("float_exp_only_final_overflow");
        reveal_strlit("float_exp_only_pow10_overflow");
        lemma_seq_lt_at("float_exp_only_final_overflow"@, "float_exp_only_pow10_overflow"@, 15);
    } else if i == 47 {
        reveal_strlit("float_exp_only_pow10_overflow");
        reveal_strlit("float_frac_combined_overflow");
        lemma_seq_lt_at("float_exp_only_pow10_overflow"@, "float_frac_combined_overflow"@, 6);
    } else if i == 48 {
        reveal_strlit("float_frac_combined_overflow");
        reveal_strlit("float_frac_eof_combined_overflow");
        lemma_seq_lt_at("float_frac_combined_overflow"@, "float_frac_eof_combined_overflow"@, 11);
    } else if i == 49 {
        reveal_strlit("float_frac_eof_combined_overflow");
        reveal_strlit("float_frac_exp_overflow_i32");
        lemma_seq_lt_at("float_frac_eof_combined_overflow"@, "float_frac_exp_overflow_i32"@, 12);
    }
}

proof fn lemma_step_4(i: int)
    requires
        50 <= i < 62,
    ensures
        seq_lt(marker_name_spec(i), marker_name_spec(i + 1)),
{
    if i == 50 {
        reveal_strlit("float_frac_exp_overflow_i32");
        reveal_strlit("float_frac_exp_underflow_i32");
        lemma_seq_lt_at("float_frac_exp_overflow_i32"@, "float_frac_exp_underflow_i32"@, 15);
    } else if i == 51 {
        reveal_strlit("float_frac_exp_underflow_i32");
        reveal_strlit("float_frac_final_overflow");
        lemma_seq_lt_at("float_frac_exp_underflow_i32"@, "float_frac_final_overflow"@, 11);
    } else if i == 52 {
        reveal_strlit("float_frac_final_overflow");
        reveal_strlit("float_frac_noexp_combined_overflow");
        lemma_seq_lt_at("float_frac_final_overflow"@, "float_frac_noexp_combined_overflow"@, 11);
    } else if i == 53 {
        reveal_strlit("float_frac_noexp_combined_overflow");
        reveal_strlit("float_frac_pow10_overflow");
        lemma_seq_lt_at("float_frac_noexp_combined_overflow"@, "float_frac_pow10_overflow"@, 11);
    } else if i == 54 {
        reveal_strlit("float_frac_pow10_overflow");
        reveal_strlit("float_hex_char_after_underscore");
        lemma_seq_lt_at("float_frac_pow10_overflow"@, "float_hex_char_after_underscore"@, 6);
    } else if i == 55 {
        reveal_strlit("float_hex_char_after_underscore");
        reveal_strlit("float_hex_char_in_part");
        lemma_seq_lt_at("float_hex_char_after_underscore"@, "float_hex_char_in_part"@, 15);
    } else if i == 56 {
        reveal_strlit("float_hex_char_in_part");
        reveal_strlit("float_invalid_char_after_underscore");
        lemma_seq_lt_at("float_hex_char_in_part"@, "float_invalid_char_after_underscore"@, 6);
    } else if i == 57 {
        reveal_strlit("float_invalid_char_after_underscore");
        reveal_strlit("float_invalid_inf_casing_allcaps");
        lemma_seq_lt_at("float_invalid_char_after_underscore"@, "float_invalid_inf_casing_allcaps"@, 14);
    } else if i == 58 {
        reveal_strlit("float_invalid_inf_casing_allcaps");
        reveal_strlit("float_invalid_inf_casing_titlecase");
        lemma_seq_lt_at("float_invalid_inf_casing_allcaps"@, "float_invalid_inf_casing_titlecase"@, 25);
    } else if i == 59 {
        reveal_strlit("float_invalid_inf_casing_titlecase");
        reveal_strlit("float_invalid_nan_casing_allcaps");
        lemma_seq_lt_at("float_invalid_inf_casing_titlecase"@, "float_invalid_nan_casing_allcaps"@, 14);
    } else if i == 60 {
        reveal_strlit("float_invalid_nan_casing_allcaps");
        reveal_strlit("float_invalid_nan_casing_camelcase");
        lemma_seq_lt_at("float_invalid_nan_casing_allcaps"@, "float_invalid_nan_casing_camelcase"@, 25);
    } else if i == 61 {
        reveal_strlit("float_invalid_nan_casing_camelcase");
        reveal_strlit("float_invalid_nan_casing_titlecase");
        lemma_seq_lt_at("float_invalid_nan_casing_camelcase"@, "float_invalid_nan_casing_titlecase"@, 25);
    }
}

proof fn lemma_step_5(i: int)
    requires
        62 <= i < 74,
    ensures
        seq_lt(marker_name_spec(i), marker_name_spec(i + 1)),
{
    if i == 62 {
        reveal_strlit("float_invalid_nan_casing_titlecase");
        reveal_strlit("float_multiple_underscores");
        lemma_seq_lt_at("float_invalid_nan_casing_titlecase"@, "float_multiple_underscores"@, 6);
    } else if i == 63 {
        reveal_strlit("float_multiple_underscores");
        reveal_strlit("float_no_digit_after_dot");
        lemma_seq_lt_at("float_multiple_underscores"@, "float_no_digit_after_dot"@, 6);
    } else if i == 64 {
        reveal_strlit("float_no_digit_after_dot");
        reveal_strlit("float_no_digit_after_dot_eof");
        lemma_seq_lt_prefix("float_no_digit_after_dot"@, "float_no_digit_after_dot_eof"@);
    } else if i == 65 {
        reveal_strlit("float_no_digit_after_dot_eof");
        reveal_strlit("float_underscore_at_end");
        lemma_seq_lt_at("float_no_digit_after_dot_eof"@, "float_underscore_at_end"@, 6);
    } else if i == 66 {
        reveal_strlit("float_underscore_at_end");
        reveal_strlit("full_date_expect_mday_after_month");
        lemma_seq_lt_at("float_underscore_at_end"@, "full_date_expect_mday_after_month"@, 1);
    } else if i == 67 {
        reveal_strlit("full_date_expect_mday_after_month");
        reveal_strlit("full_date_first_dash_without_second");
        lemma_seq_lt_at("full_date_expect_mday_after_month"@, "full_date_first_dash_without_second"@, 10);
    } else if i == 68 {
        reveal_strlit("full_date_first_dash_without_second");
        reveal_strlit("full_date_first_dash_wrong_char");
        lemma_seq_lt_at("full_date_first_dash_without_second"@, "full_date_first_dash_wrong_char"@, 22);
    } else if i == 69 {
        reveal_strlit("full_date_first_dash_wrong_char");
        reveal_strlit("full_date_second_dash_wrong_char");
        lemma_seq_lt_at("full_date_first_dash_wrong_char"@, "full_date_second_dash_wrong_char"@, 10);
    } else if i == 70 {
        reveal_strlit("full_date_second_dash_wrong_char");
        reveal_strlit("inline_table_conflicting_keys");
        lemma_seq_lt_at("full_date_second_dash_wrong_char"@, "inline_table_conflicting_keys"@, 0);
    } else if i == 71 {
        reveal_strlit("inline_table_conflicting_keys");
        reveal_strlit("inline_table_open_eof");
        lemma_seq_lt_at("inline_table_conflicting_keys"@, "inline_table_open_eof"@, 13);
    } else if i == 72 {
        reveal_strlit("inline_table_open_eof");
        reveal_strlit("inline_table_redefined_closed");
        lemma_seq_lt_at("inline_table_open_eof"@, "inline_table_redefined_closed"@, 13);
    } else if i == 73 {
        reveal_strlit("inline_table_redefined_closed");
        reveal_strlit("inline_table_redefined_explicit");
        lemma_seq_lt_at("inline_table_redefined_closed"@, "inline_table_redefined_explicit"@, 23);
    }
}

proof fn lemma_step_6(i: int)
    requires
        74 <= i < 86,
    ensures
        seq_lt(marker_name_spec(i), marker_name_spec(i + 1)),
{
    if i == 74 {
        reveal_strlit("inline_table_redefined_explicit");
        reveal_strlit("inline_table_redefined_inline");
        lemma_seq_lt_at("inline_table_redefined_explicit"@, "inline_table_redefined_inline"@, 23);
    } else if i == 75 {
        reveal_strlit("inline_table_redefined_inline");
        reveal_strlit("inline_table_sep_eof");
        lemma_seq_lt_at("inline_table_redefined_inline"@, "inline_table_sep_eof"@, 13);
    } else if i == 76 {
        reveal_strlit("inline_table_sep_eof");
        reveal_strlit("inline_table_sep_expected_comma");
        lemma_seq_lt_at("inline_table_sep_eof"@, "inline_table_sep_expected_comma"@, 18);
    } else if i == 77 {
        reveal_strlit("inline_table_sep_expected_comma");
        reveal_strlit("inline_table_unterminated");
        lemma_seq_lt_at("inline_table_sep_expected_comma"@, "inline_table_unterminated"@, 13);
    } else if i == 78 {
        reveal_strlit("inline_table_unterminated");
        reveal_strlit("integer_bin_dec_digit_after_prefix");
        lemma_seq_lt_at("inline_table_unterminated"@, "integer_bin_dec_digit_after_prefix"@, 2);
    } else if i == 79 {
        reveal_strlit("integer_bin_dec_digit_after_prefix");
        reveal_strlit("integer_bin_dec_digit_after_underscore");
        lemma_seq_lt_at("integer_bin_dec_digit_after_prefix"@, "integer_bin_dec_digit_after_underscore"@, 28);
    } else if i == 80 {
        reveal_strlit("integer_bin_dec_digit_after_underscore");
        reveal_strlit("integer_bin_dec_digit_in_body");
        lemma_seq_lt_at("integer_bin_dec_digit_after_underscore"@, "integer_bin_dec_digit_in_body"@, 22);
    } else if i == 81 {
        reveal_strlit("integer_bin_dec_digit_in_body");
        reveal_strlit("integer_bin_double_underscore");
        lemma_seq_lt_at("integer_bin_dec_digit_in_body"@, "integer_bin_double_underscore"@, 13);
    } else if i == 82 {
        reveal_strlit("integer_bin_double_underscore");
        reveal_strlit("integer_bin_hex_digit_after_prefix");
        lemma_seq_lt_at("integer_bin_double_underscore"@, "integer_bin_hex_digit_after_prefix"@, 12);
    } else if i == 83 {
        reveal_strlit("integer_bin_hex_digit_after_prefix");
        reveal_strlit("integer_bin_hex_digit_after_underscore");
        lemma_seq_lt_at("integer_bin_hex_digit_after_prefix"@, "integer_bin_hex_digit_after_underscore"@, 28);
    } else if i == 84 {
        reveal_strlit("integer_bin_hex_digit_after_underscore");
        reveal_strlit("integer_bin_hex_digit_in_body");
        lemma_seq_lt_at("integer_bin_hex_digit_after_underscore"@, "integer_bin_hex_digit_in_body"@, 22);
    } else if i == 85 {
        reveal_strlit("integer_bin_hex_digit_in_body");
        reveal_strlit("integer_bin_invalid_char_after_prefix");
        lemma_seq_lt_at("integer_bin_hex_digit_in_body"@, "integer_bin_invalid_char_after_prefix"@, 12);
    }
}

proof fn lemma_step_7(i: int)
    requires
        86 <= i < 98,
    ensures
        seq_lt(marker_name_spec(i), marker_name_spec(i + 1)),
{
    if i == 86 {
        reveal_strlit("integer_bin_invalid_char_after_prefix");
        reveal_strlit("integer_bin_invalid_char_after_underscore");
        lemma_seq_lt_at("integer_bin_invalid_char_after_prefix"@, "integer_bin_invalid_char_after_underscore"@, 31);
    } else if i == 87 {
        reveal_strlit("integer_bin_invalid_char_after_underscore");
        reveal_strlit("integer_bin_no_digits_after_prefix");
        lemma_seq_lt_at("integer_bin_invalid_char_after_underscore"@, "integer_bin_no_digits_after_prefix"@, 12);
    } else if i == 88 {
        reveal_strlit("integer_bin_no_digits_after_prefix");
        reveal_strlit("integer_bin_oct_digit_after_prefix");
        lemma_seq_lt_at("integer_bin_no_digits_after_prefix"@, "integer_bin_oct_digit_after_prefix"@, 12);
    } else if i == 89 {
        reveal_strlit("integer_bin_oct_digit_after_prefix");
        reveal_strlit("integer_bin_oct_digit_after_underscore");
        lemma_seq_lt_at("integer_bin_oct_digit_after_prefix"@, "integer_bin_oct_digit_after_underscore"@, 28);
    } else if i == 90 {
        reveal_strlit("integer_bin_oct_digit_after_underscore");
        reveal_strlit("integer_bin_oct_digit_in_body");
        lemma_seq_lt_at("integer_bin_oct_digit_after_underscore"@, "integer_bin_oct_digit_in_body"@, 22);
    } else if i == 91 {
        reveal_strlit("integer_bin_oct_digit_in_body");
        reveal_strlit("integer_bin_overflow");
        lemma_seq_lt_at("integer_bin_oct_digit_in_body"@, "integer_bin_overflow"@, 13);
    } else if i == 92 {
        reveal_strlit("integer_bin_overflow");
        reveal_strlit("integer_bin_prefix_uppercase");
        lemma_seq_lt_at("integer_bin_overflow"@, "integer_bin_prefix_uppercase"@, 12);
    } else if i == 93 {
        reveal_strlit("integer_bin_prefix_uppercase");
        reveal_strlit("integer_bin_underscore_after_prefix");
        lemma_seq_lt_at("integer_bin_prefix_uppercase"@, "integer_bin_underscore_after_prefix"@, 12);
    } else if i == 94 {
        reveal_strlit("integer_bin_underscore_after_prefix");
        reveal_strlit("integer_bin_underscore_at_end");
        lemma_seq_lt_at("integer_bin_underscore_after_prefix"@, "integer_bin_underscore_at_end"@, 24);
    } else if i == 95 {
        reveal_strlit("integer_bin_underscore_at_end");
        reveal_strlit("integer_dec_double_underscore");
        lemma_seq_lt_at("integer_bin_underscore_at_end"@, "integer_dec_double_underscore"@, 8);
    } else if i == 96 {
        reveal_strlit("integer_dec_double_underscore");
        reveal_strlit("integer_dec_hex_char_after_underscore");
        lemma_seq_lt_at("integer_dec_double_underscore"@, "integer_dec_hex_char_after_underscore"@, 12);
    } else if i == 97 {
        reveal_strlit("integer_dec_hex_char_after_underscore");
        reveal_strlit("integer_dec_hex_char_in_body");
        lemma_seq_lt_at("integer_dec_hex_char_after_underscore"@, "integer_dec_hex_char_in_body"@, 21);
    }
}

proof fn lemma_step_8(i: int)
    requires
        98 <= i < 110,
    ensures
        seq_lt(marker_name_spec(i), marker_name_spec(i + 1)),
{
    if i == 98 {
        reveal_strlit("integer_dec_hex_char_in_body");
        reveal_strlit("integer_dec_invalid_char_after_underscore");
        lemma_seq_lt_at("integer_dec_hex_char_in_body"@, "integer_dec_invalid_char_after_underscore"@, 12);
    } else if i == 99 {
        reveal_strlit("integer_dec_invalid_char_after_underscore");
        reveal_strlit("integer_dec_invalid_char_after_zero");
        lemma_seq_lt_at("integer_dec_invalid_char_after_underscore"@, "integer_dec_invalid_char_after_zero"@, 31);
    } else if i == 100 {
        reveal_strlit("integer_dec_invalid_char_after_zero");
        reveal_strlit("integer_dec_leading_zero_digit");
        lemma_seq_lt_at("integer_dec_invalid_char_after_zero"@, "integer_dec_leading_zero_digit"@, 12);
    } else if i == 101 {
        reveal_strlit("integer_dec_leading_zero_digit");
        reveal_strlit("integer_dec_leading_zero_underscore");
        lemma_seq_lt_at("integer_dec_leading_zero_digit"@, "integer_dec_leading_zero_underscore"@, 25);
    } else if i == 102 {
        reveal_strlit("integer_dec_leading_zero_underscore");
        reveal_strlit("integer_dec_minus_sign_no_digits_eof");
        lemma_seq_lt_at("integer_dec_leading_zero_underscore"@, "integer_dec_minus_sign_no_digits_eof"@, 12);
    } else if i == 103 {
        reveal_strlit("integer_dec_minus_sign_no_digits_eof");
        reveal_strlit("integer_dec_minus_sign_no_digits_other");
        lemma_seq_lt_at("integer_dec_minus_sign_no_digits_eof"@, "integer_dec_minus_sign_no_digits_other"@, 33);
    } else if i == 104 {
        reveal_strlit("integer_dec_minus_sign_no_digits_other");
        reveal_strlit("integer_dec_overflow_plus_sign");
        lemma_seq_lt_at("integer_dec_minus_sign_no_digits_other"@, "integer_dec_overflow_plus_sign"@, 12);
    } else if i == 105 {
        reveal_strlit("integer_dec_overflow_plus_sign");
        reveal_strlit("integer_dec_overflow_unsigned");
        lemma_seq_lt_at("integer_dec_overflow_plus_sign"@, "integer_dec_overflow_unsigned"@, 21);
    } else if i == 106 {
        reveal_strlit("integer_dec_overflow_unsigned");
        reveal_strlit("integer_dec_plus_sign_no_digits_eof");
        lemma_seq_lt_at("integer_dec_overflow_unsigned"@, "integer_dec_plus_sign_no_digits_eof"@, 12);
    } else if i == 107 {
        reveal_strlit("integer_dec_plus_sign_no_digits_eof");
        reveal_strlit("integer_dec_plus_sign_no_digits_other");
        lemma_seq_lt_at("integer_dec_plus_sign_no_digits_eof"@, "integer_dec_plus_sign_no_digits_other"@, 32);
    } else if i == 108 {
        reveal_strlit("integer_dec_plus_sign_no_digits_other");
        reveal_strlit("integer_dec_underflow_minus_sign");
        lemma_seq_lt_at("integer_dec_plus_sign_no_digits_other"@, "integer_dec_underflow_minus_sign"@, 12);
    } else if i == 109 {
        reveal_strlit("integer_dec_underflow_minus_sign");
        reveal_strlit("integer_dec_underscore_at_end");
        lemma_seq_lt_at("integer_dec_underflow_minus_sign"@, "integer_dec_underscore_at_end"@, 17);
    }
}

proof fn lemma_step_9(i: int)
    requires
        110 <= i < 122,
    ensures
        seq_lt(marker_name_spec(i), marker_name_spec(i + 1)),
{
    if i == 110 {
        reveal_strlit("integer_dec_underscore_at_end");
        reveal_strlit("integer_hex_double_underscore");
        lemma_seq_lt_at("integer_dec_underscore_at_end"@, "integer_hex_double_underscore"@, 8);
    } else if i == 111 {
        reveal_strlit("integer_hex_double_underscore");
        reveal_strlit("integer_hex_invalid_char_after_prefix");
        lemma_seq_lt_at("integer_hex_double_underscore"@, "integer_hex_invalid_char_after_prefix"@, 12);
    } else if i == 112 {
        reveal_strlit("integer_hex_invalid_char_after_prefix");
        reveal_strlit("integer_hex_invalid_char_after_underscore");
        lemma_seq_lt_at("integer_hex_invalid_char_after_prefix"@, "integer_hex_invalid_char_after_underscore"@, 31);
    } else if i == 113 {
        reveal_strlit("integer_hex_invalid_char_after_underscore");
        reveal_strlit("integer_hex_no_digits_after_prefix");
        lemma_seq_lt_at("integer_hex_invalid_char_after_underscore"@, "integer_hex_no_digits_after_prefix"@, 12);
    } else if i == 114 {
        reveal_strlit("integer_hex_no_digits_after_prefix");
        reveal_strlit("integer_hex_overflow");
        lemma_seq_lt_at("integer_hex_no_digits_after_prefix"@, "integer_hex_overflow"@, 12);
    } else if i == 115 {
        reveal_strlit("integer_hex_overflow");
        reveal_strlit("integer_hex_prefix_uppercase");
        lemma_seq_lt_at("integer_hex_overflow"@, "integer_hex_prefix_uppercase"@, 12);
    } else if i == 116 {
        reveal_strlit("integer_hex_prefix_uppercase");
        reveal_strlit("integer_hex_underscore_after_prefix");
        lemma_seq_lt_at("integer_hex_prefix_uppercase"@, "integer_hex_underscore_after_prefix"@, 12);
    } else if i == 117 {
        reveal_strlit("integer_hex_underscore_after_prefix");
        reveal_strlit("integer_hex_underscore_at_end");
        lemma_seq_lt_at("integer_hex_underscore_after_prefix"@, "integer_hex_underscore_at_end"@, 24);
    } else if i == 118 {
        reveal_strlit("integer_hex_underscore_at_end");
        reveal_strlit("integer_oct_dec_digit_after_prefix");
        lemma_seq_lt_at("integer_hex_underscore_at_end"@, "integer_oct_dec_digit_after_prefix"@, 8);
    } else if i == 119 {
        reveal_strlit("integer_oct_dec_digit_after_prefix");
        reveal_strlit("integer_oct_dec_digit_after_underscore");
        lemma_seq_lt_at("integer_oct_dec_digit_after_prefix"@, "integer_oct_dec_digit_after_underscore"@, 28);
    } else if i == 120 {
        reveal_strlit("integer_oct_dec_digit_after_underscore");
        reveal_strlit("integer_oct_dec_digit_in_body");
        lemma_seq_lt_at("integer_oct_dec_digit_after_underscore"@, "integer_oct_dec_digit_in_body"@, 22);
    } else if i == 121 {
        reveal_strlit("integer_oct_dec_digit_in_body");
        reveal_strlit("integer_oct_double_underscore");
        lemma_seq_lt_at("integer_oct_dec_digit_in_body"@, "integer_oct_double_underscore"@, 13);
    }
}

proof fn lemma_step_10(i: int)
    requires
        122 <= i < 134,
    ensures
        seq_lt(marker_name_spec(i), marker_name_spec(i + 1)),
{
    if i == 122 {
        reveal_strlit("integer_oct_double_underscore");
        reveal_strlit("integer_oct_hex_digit_after_prefix");
        lemma_seq_lt_at("integer_oct_double_underscore"@, "integer_oct_hex_digit_after_prefix"@, 12);
    } else if i == 123 {
        reveal_strlit("integer_oct_hex_digit_after_prefix");
        reveal_strlit("integer_oct_hex_digit_after_underscore");
        lemma_seq_lt_at("integer_oct_hex_digit_after_prefix"@, "integer_oct_hex_digit_after_underscore"@, 28);
    } else if i == 124 {
        reveal_strlit("integer_oct_hex_digit_after_underscore");
        reveal_strlit("integer_oct_hex_digit_in_body");
        lemma_seq_lt_at("integer_oct_hex_digit_after_underscore"@, "integer_oct_hex_digit_in_body"@, 22);
    } else if i == 125 {
        reveal_strlit("integer_oct_hex_digit_in_body");
        reveal_strlit("integer_oct_invalid_char_after_prefix");
        lemma_seq_lt_at("integer_oct_hex_digit_in_body"@, "integer_oct_invalid_char_after_prefix"@, 12);
    } else if i == 126 {
        reveal_strlit("integer_oct_invalid_char_after_prefix");
        reveal_strlit("integer_oct_invalid_char_after_underscore");
        lemma_seq_lt_at("integer_oct_invalid_char_after_prefix"@, "integer_oct_invalid_char_after_underscore"@, 31);
    } else if i == 127 {
        reveal_strlit("integer_oct_invalid_char_after_underscore");
        reveal_strlit("integer_oct_no_digits_after_prefix");
        lemma_seq_lt_at("integer_oct_invalid_char_after_underscore"@, "integer_oct_no_digits_after_prefix"@, 12);
    } else if i == 128 {
        reveal_strlit("integer_oct_no_digits_after_prefix");
        reveal_strlit("integer_oct_overflow");
        lemma_seq_lt_at("integer_oct_no_digits_after_prefix"@, "integer_oct_overflow"@, 12);
    } else if i == 129 {
        reveal_strlit("integer_oct_overflow");
        reveal_strlit("integer_oct_prefix_uppercase");
        lemma_seq_lt_at("integer_oct_overflow"@, "integer_oct_prefix_uppercase"@, 12);
    } else if i == 130 {
        reveal_strlit("integer_oct_prefix_uppercase");
        reveal_strlit("integer_oct_underscore_after_prefix");
        lemma_seq_lt_at("integer_oct_prefix_uppercase"@, "integer_oct_underscore_after_prefix"@, 12);
    } else if i == 131 {
        reveal_strlit("integer_oct_underscore_after_prefix");
        reveal_strlit("integer_oct_underscore_at_end");
        lemma_seq_lt_at("integer_oct_underscore_after_prefix"@, "integer_oct_underscore_at_end"@, 24);
    } else if i == 132 {
        reveal_strlit("integer_oct_underscore_at_end");
        reveal_strlit("integer_signed_bin_prefix");
        lemma_seq_lt_at("integer_oct_underscore_at_end"@, "integer_signed_bin_prefix"@, 8);
    } else if i == 133 {
        reveal_strlit("integer_signed_bin_prefix");
        reveal_strlit("integer_signed_hex_prefix");
        lemma_seq_lt_at("integer_signed_bin_prefix"@, "integer_signed_hex_prefix"@, 15);
    }
}

proof fn lemma_step_11(i: int)
    requires
        134 <= i < 146,
    ensures
        seq_lt(marker_name_spec(i), marker_name_spec(i + 1)),
{
    if i == 134 {
        reveal_strlit("integer_signed_hex_prefix");
        reveal_strlit("integer_signed_oct_prefix");
        lemma_seq_lt_at("integer_signed_hex_prefix"@, "integer_signed_oct_prefix"@, 15);
    } else if i == 135 {
        reveal_strlit("integer_signed_oct_prefix");
        reveal_strlit("key_value_missing_equals_char");
        lemma_seq_lt_at("integer_signed_oct_prefix"@, "key_value_missing_equals_char"@, 0);
    } else if i == 136 {
        reveal_strlit("key_value_missing_equals_char");
        reveal_strlit("key_value_missing_equals_eof");
        lemma_seq_lt_at("key_value_missing_equals_char"@, "key_value_missing_equals_eof"@, 25);
    } else if i == 137 {
        reveal_strlit("key_value_missing_equals_eof");
        reveal_strlit("key_value_missing_value_eof");
        lemma_seq_lt_at("key_value_missing_equals_eof"@, "key_value_missing_value_eof"@, 18);
    } else if i == 138 {
        reveal_strlit("key_value_missing_value_eof");
        reveal_strlit("key_value_missing_value_nomatch");
        lemma_seq_lt_at("key_value_missing_value_eof"@, "key_value_missing_value_nomatch"@, 24);
    } else if i == 139 {
        reveal_strlit("key_value_missing_value_nomatch");
        reveal_strlit("literal_string_invalid_char");
        lemma_seq_lt_at("key_value_missing_value_nomatch"@, "literal_string_invalid_char"@, 0);
    } else if i == 140 {
        reveal_strlit("literal_string_invalid_char");
        reveal_strlit("literal_string_missing_close_eof");
        lemma_seq_lt_at("literal_string_invalid_char"@, "literal_string_missing_close_eof"@, 15);
    } else if i == 141 {
        reveal_strlit("literal_string_missing_close_eof");
        reveal_strlit("literal_string_newline");
        lemma_seq_lt_at("literal_string_missing_close_eof"@, "literal_string_newline"@, 15);
    } else if i == 142 {
        reveal_strlit("literal_string_newline");
        reveal_strlit("ml_basic_escaped_newline_missing_newline");
        lemma_seq_lt_at("literal_string_newline"@, "ml_basic_escaped_newline_missing_newline"@, 0);
    } else if i == 143 {
        reveal_strlit("ml_basic_escaped_newline_missing_newline");
        reveal_strlit("ml_basic_missing_close_after_newline");
        lemma_seq_lt_at("ml_basic_escaped_newline_missing_newline"@, "ml_basic_missing_close_after_newline"@, 9);
    } else if i == 144 {
        reveal_strlit("ml_basic_missing_close_after_newline");
        reveal_strlit("ml_basic_missing_close_no_newline");
        lemma_seq_lt_at("ml_basic_missing_close_after_newline"@, "ml_basic_missing_close_no_newline"@, 23);
    } else if i == 145 {
        reveal_strlit("ml_basic_missing_close_no_newline");
        reveal_strlit("ml_basic_open_eof");
        lemma_seq_lt_at("ml_basic_missing_close_no_newline"@, "ml_basic_open_eof"@, 9);
    }
}

proof fn lemma_step_12(i: int)
    requires
        146 <= i < 158,
    ensures
        seq_lt(marker_name_spec(i), marker_name_spec(i + 1)),
{
    if i == 146 {
        reveal_strlit("ml_basic_open_eof");
        reveal_strlit("ml_basic_quotes_without_content");
        lemma_seq_lt_at("ml_basic_open_eof"@, "ml_basic_quotes_without_content"@, 9);
    } else if i == 147 {
        reveal_strlit("ml_basic_quotes_without_content");
        reveal_strlit("ml_literal_missing_close_after_newline");
        lemma_seq_lt_at("ml_basic_quotes_without_content"@, "ml_literal_missing_close_after_newline"@, 3);
    } else if i == 148 {
        reveal_strlit("ml_literal_missing_close_after_newline");
        reveal_strlit("ml_literal_missing_close_no_newline");
        lemma_seq_lt_at("ml_literal_missing_close_after_newline"@, "ml_literal_missing_close_no_newline"@, 25);
    } else if i == 149 {
        reveal_strlit("ml_literal_missing_close_no_newline");
        reveal_strlit("ml_literal_open_eof");
        lemma_seq_lt_at("ml_literal_missing_close_no_newline"@, "ml_literal_open_eof"@, 11);
    } else if i == 150 {
        reveal_strlit("ml_literal_open_eof");
        reveal_strlit("ml_literal_quotes_without_content");
        lemma_seq_lt_at("ml_literal_open_eof"@, "ml_literal_quotes_without_content"@, 11);
    } else if i == 151 {
        reveal_strlit("ml_literal_quotes_without_content");
        reveal_strlit("numoffset_expect_colon_eof");
        lemma_seq_lt_at("ml_literal_quotes_without_content"@, "numoffset_expect_colon_eof"@, 0);
    } else if i == 152 {
        reveal_strlit("numoffset_expect_colon_eof");
        reveal_strlit("numoffset_expect_colon_wrong_char");
        lemma_seq_lt_at("numoffset_expect_colon_eof"@, "numoffset_expect_colon_wrong_char"@, 23);
    } else if i == 153 {
        reveal_strlit("numoffset_expect_colon_wrong_char");
        reveal_strlit("numoffset_expect_hour_after_sign");
        lemma_seq_lt_at("numoffset_expect_colon_wrong_char"@, "numoffset_expect_hour_after_sign"@, 17);
    } else if i == 154 {
        reveal_strlit("numoffset_expect_hour_after_sign");
        reveal_strlit("numoffset_expect_minute_after_colon");
        lemma_seq_lt_at("numoffset_expect_hour_after_sign"@, "numoffset_expect_minute_after_colon"@, 17);
    } else if i == 155 {
        reveal_strlit("numoffset_expect_minute_after_colon");
        reveal_strlit("partial_time_expect_second_after_minute");
        lemma_seq_lt_at("numoffset_expect_minute_after_colon"@, "partial_time_expect_second_after_minute"@, 0);
    } else if i == 156 {
        reveal_strlit("partial_time_expect_second_after_minute");
        reveal_strlit("partial_time_second_colon_without_first");
        lemma_seq_lt_at("partial_time_expect_second_after_minute"@, "partial_time_second_colon_without_first"@, 13);
    } else if i == 157 {
        reveal_strlit("partial_time_second_colon_without_first");
        reveal_strlit("quoted_key_multiline_basic");
        lemma_seq_lt_at("partial_time_second_colon_without_first"@, "quoted_key_multiline_basic"@, 0);
    }
}

proof fn lemma_step_13(i: int)
    requires
        158 <= i < 170,
    ensures
        seq_lt(marker_name_spec(i), marker_name_spec(i + 1)),
{
    if i == 158 {
        reveal_strlit("quoted_key_multiline_basic");
        reveal_strlit("quoted_key_multiline_literal");
        lemma_seq_lt_at("quoted_key_multiline_basic"@, "quoted_key_multiline_literal"@, 21);
    } else if i == 159 {
        reveal_strlit("quoted_key_multiline_literal");
        reveal_strlit("std_table_duplicate");
        lemma_seq_lt_at("quoted_key_multiline_literal"@, "std_table_duplicate"@, 0);
    } else if i == 160 {
        reveal_strlit("std_table_duplicate");
        reveal_strlit("std_table_empty_name");
        lemma_seq_lt_at("std_table_duplicate"@, "std_table_empty_name"@, 10);
    } else if i == 161 {
        reveal_strlit("std_table_empty_name");
        reveal_strlit("std_table_missing_close_char");
        lemma_seq_lt_at("std_table_empty_name"@, "std_table_missing_close_char"@, 10);
    } else if i == 162 {
        reveal_strlit("std_table_missing_close_char");
        reveal_strlit("std_table_missing_close_eof");
        lemma_seq_lt_at("std_table_missing_close_char"@, "std_table_missing_close_eof"@, 24);
    } else if i == 163 {
        reveal_strlit("std_table_missing_close_eof");
        reveal_strlit("std_table_open_eof");
        lemma_seq_lt_at("std_table_missing_close_eof"@, "std_table_open_eof"@, 10);
    } else if i == 164 {
        reveal_strlit("std_table_open_eof");
        reveal_strlit("std_table_redefines_array_table");
        lemma_seq_lt_at("std_table_open_eof"@, "std_table_redefines_array_table"@, 10);
    } else if i == 165 {
        reveal_strlit("std_table_redefines_array_table");
        reveal_strlit("std_table_redefines_implicit_table");
        lemma_seq_lt_at("std_table_redefines_array_table"@, "std_table_redefines_implicit_table"@, 20);
    } else if i == 166 {
        reveal_strlit("std_table_redefines_implicit_table");
        reveal_strlit("std_table_redefines_inline_table");
        lemma_seq_lt_at("std_table_redefines_implicit_table"@, "std_table_redefines_inline_table"@, 21);
    } else if i == 167 {
        reveal_strlit("std_table_redefines_inline_table");
        reveal_strlit("string_invalid_escape");
        lemma_seq_lt_at("std_table_redefines_inline_table"@, "string_invalid_escape"@, 2);
    } else if i == 168 {
        reveal_strlit("string_invalid_escape");
        reveal_strlit("string_unicode_escape_invalid_hex");
        lemma_seq_lt_at("string_invalid_escape"@, "string_unicode_escape_invalid_hex"@, 7);
    } else if i == 169 {
        reveal_strlit("string_unicode_escape_invalid_hex");
        reveal_strlit("string_unicode_escape_invalid_scalar");
        lemma_seq_lt_at("string_unicode_escape_invalid_hex"@, "string_unicode_escape_invalid_scalar"@, 30);
    }
}

proof fn lemma_step_14(i: int)
    requires
        170 <= i < 182,
    ensures
        seq_lt(marker_name_spec(i), marker_name_spec(i + 1)),
{
    if i == 170 {
        reveal_strlit("string_unicode_escape_invalid_scalar");
        reveal_strlit("time_hour_first_char_not_digit");
        lemma_seq_lt_at("string_unicode_escape_invalid_scalar"@, "time_hour_first_char_not_digit"@, 0);
    } else if i == 171 {
        reveal_strlit("time_hour_first_char_not_digit");
        reveal_strlit("time_hour_out_of_range");
        lemma_seq_lt_at("time_hour_first_char_not_digit"@, "time_hour_out_of_range"@, 10);
    } else if i == 172 {
        reveal_strlit("time_hour_out_of_range");
        reveal_strlit("time_hour_second_char_not_digit");
        lemma_seq_lt_at("time_hour_out_of_range"@, "time_hour_second_char_not_digit"@, 10);
    } else if i == 173 {
        reveal_strlit("time_hour_second_char_not_digit");
        reveal_strlit("time_minute_first_char_not_digit");
        lemma_seq_lt_at("time_hour_second_char_not_digit"@, "time_minute_first_char_not_digit"@, 5);
    } else if i == 174 {
        reveal_strlit("time_minute_first_char_not_digit");
        reveal_strlit("time_minute_out_of_range");
        lemma_seq_lt_at("time_minute_first_char_not_digit"@, "time_minute_out_of_range"@, 12);
    } else if i == 175 {
        reveal_strlit("time_minute_out_of_range");
        reveal_strlit("time_minute_second_char_not_digit");
        lemma_seq_lt_at("time_minute_out_of_range"@, "time_minute_second_char_not_digit"@, 12);
    } else if i == 176 {
        reveal_strlit("time_minute_second_char_not_digit");
        reveal_strlit("time_secfrac_no_digit_after_dot_eof");
        lemma_seq_lt_at("time_minute_second_char_not_digit"@, "time_secfrac_no_digit_after_dot_eof"@, 5);
    } else if i == 177 {
        reveal_strlit("time_secfrac_no_digit_after_dot_eof");
        reveal_strlit("time_secfrac_no_digit_after_dot_nondigit");
        lemma_seq_lt_at("time_secfrac_no_digit_after_dot_eof"@, "time_secfrac_no_digit_after_dot_nondigit"@, 32);
    } else if i == 178 {
        reveal_strlit("time_secfrac_no_digit_after_dot_nondigit");
        reveal_strlit("time_second_first_char_not_digit");
        lemma_seq_lt_at("time_secfrac_no_digit_after_dot_nondigit"@, "time_second_first_char_not_digit"@, 8);
    } else if i == 179 {
        reveal_strlit("time_second_first_char_not_digit");
        reveal_strlit("time_second_out_of_range");
        lemma_seq_lt_at("time_second_first_char_not_digit"@, "time_second_out_of_range"@, 12);
    } else if i == 180 {
        reveal_strlit("time_second_out_of_range");
        reveal_strlit("time_second_second_char_not_digit");
        lemma_seq_lt_at("time_second_out_of_range"@, "time_second_second_char_not_digit"@, 12);
    } else if i == 181 {
        reveal_strlit("time_second_second_char_not_digit");
        reveal_strlit("toml_expected_newline_between_expressions");
        lemma_seq_lt_at("time_second_second_char_not_digit"@, "toml_expected_newline_between_expressions"@, 1);
    }
}

proof fn lemma_step_15(i: int)
    requires
        182 <= i < 183,
    ensures
        seq_lt(marker_name_spec(i), marker_name_spec(i + 1)),
{
    if i == 182 {
        reveal_strlit("toml_expected_newline_between_expressions");
        reveal_strlit("toml_table_merge_type_mismatch");
        lemma_seq_lt_at("toml_expected_newline_between_expressions"@, "toml_table_merge_type_mismatch"@, 5);
    }
}

/// Consecutive names of the catalog from place 2 on are in increasing order.
proof fn lemma_step(i: int)
    requires
        2 <= i < 183,
    ensures
        seq_lt(marker_name_spec(i), marker_name_spec(i + 1)),
{
    if i < 14 {
        lemma_step_0(i);
    } else if i < 26 {
        lemma_step_1(i);
    } else if i < 38 {
        lemma_step_2(i);
    } else if i < 50 {
        lemma_step_3(i);
    } else if i < 62 {
        lemma_step_4(i);
    } else if i < 74 {
        lemma_step_5(i);
    } else if i < 86 {
        lemma_step_6(i);
    } else if i < 98 {
        lemma_step_7(i);
    } else if i < 110 {
        lemma_step_8(i);
    } else if i < 122 {
        lemma_step_9(i);
    } else if i < 134 {
        lemma_step_10(i);
    } else if i < 146 {
        lemma_step_11(i);
    } else if i < 158 {
        lemma_step_12(i);
    } else if i < 170 {
        lemma_step_13(i);
    } else if i < 182 {
        lemma_step_14(i);
    } else if i < 183 {
        lemma_step_15(i);
    }
}

proof fn lemma_plain_0(i: int)
    requires
        0 <= i < 12,
    ensures
        plain_name(marker_name_spec(i)),
{
    if i == 0 {
        reveal_strlit("division_by_zero");
    } else if i == 1 {
        reveal_strlit("undefined_variable");
    } else if i == 2 {
        reveal_strlit("array_comment_missing_newline");
    } else if i == 3 {
        reveal_strlit("array_of_tables_inline_array");
    } else if i == 4 {
        reveal_strlit("array_open_after_ws_eof");
    } else if i == 5 {
        reveal_strlit("array_open_eof");
    } else if i == 6 {
        reveal_strlit("array_sep_eof_after_comma");
    } else if i == 7 {
        reveal_strlit("array_table_empty_name");
    } else if i == 8 {
        reveal_strlit("array_table_missing_close_char");
    } else if i == 9 {
        reveal_strlit("array_table_missing_close_eof");
    } else if i == 10 {
        reveal_strlit("array_table_open_eof");
    } else if i == 11 {
        reveal_strlit("array_table_redefines_closed_table");
    }
}

proof fn lemma_plain_1(i: int)
    requires
        12 <= i < 24,
    ensures
        plain_name(marker_name_spec(i)),
{
    if i == 12 {
        reveal_strlit("array_table_redefines_inline_array");
    } else if i == 13 {
        reveal_strlit("array_table_redefines_inline_table");
    } else if i == 14 {
        reveal_strlit("array_table_redefines_std_table");
    } else if i == 15 {
        reveal_strlit("array_value_eof_after_value");
    } else if i == 16 {
        reveal_strlit("array_value_invalid_separator");
    } else if i == 17 {
        reveal_strlit("array_values_expected_value");
    } else if i == 18 {
        reveal_strlit("bare_key_invalid_start");
    } else if i == 19 {
        reveal_strlit("basic_string_invalid_char");
    } else if i == 20 {
        reveal_strlit("basic_string_missing_close_eof");
    } else if i == 21 {
        reveal_strlit("basic_string_newline");
    } else if i == 22 {
        reveal_strlit("boolean_invalid");
    } else if i == 23 {
        reveal_strlit("boolean_invalid_allcaps_true");
    }
}

proof fn lemma_plain_2(i: int)
    requires
        24 <= i < 36,
    ensures
        plain_name(marker_name_spec(i)),
{
    if i == 24 {
        reveal_strlit("boolean_invalid_capital_false");
    } else if i == 25 {
        reveal_strlit("boolean_invalid_capital_true");
    } else if i == 26 {
        reveal_strlit("comment_invalid_char");
    } else if i == 27 {
        reveal_strlit("date_invalid_day");
    } else if i == 28 {
        reveal_strlit("date_invalid_month");
    } else if i == 29 {
        reveal_strlit("date_mday_first_char_not_digit");
    } else if i == 30 {
        reveal_strlit("date_mday_second_char_not_digit");
    } else if i == 31 {
        reveal_strlit("date_month_first_char_not_digit");
    } else if i == 32 {
        reveal_strlit("date_month_second_char_not_digit");
    } else if i == 33 {
        reveal_strlit("date_year_first_char_not_digit");
    } else if i == 34 {
        reveal_strlit("date_year_fourth_char_not_digit");
    } else if i == 35 {
        reveal_strlit("date_year_second_char_not_digit");
    }
}

proof fn lemma_plain_3(i: int)
    requires
        36 <= i < 48,
    ensures
        plain_name(marker_name_spec(i)),
{
    if i == 36 {
        reveal_strlit("date_year_third_char_not_digit");
    } else if i == 37 {
        reveal_strlit("datetime_expect_partial_time_after_delim");
    } else if i == 38 {
        reveal_strlit("dotted_key_missing_segment");
    } else if i == 39 {
        reveal_strlit("dotted_key_redefines_array_table");
    } else if i == 40 {
        reveal_strlit("dotted_key_redefines_inline_table");
    } else if i == 41 {
        reveal_strlit("dotted_key_redefines_std_table");
    } else if i == 42 {
        reveal_strlit("float_duplicate_exponent");
    } else if i == 43 {
        reveal_strlit("float_exp_no_digit_after_e");
    } else if i == 44 {
        reveal_strlit("float_exp_only_exp_overflow_i32");
    } else if i == 45 {
        reveal_strlit("float_exp_only_exp_underflow_i32");
    } else if i == 46 {
        reveal_strlit("float_exp_only_final_overflow");
    } else if i == 47 {
        reveal_strlit("float_exp_only_pow10_overflow");
    }
}

proof fn lemma_plain_4(i: int)
    requires
        48 <= i < 60,
    ensures
        plain_name(marker_name_spec(i)),
{
    if i == 48 {
        reveal_strlit("float_frac_combined_overflow");
    } else if i == 49 {
        reveal_strlit("float_frac_eof_combined_overflow");
    } else if i == 50 {
        reveal_strlit("float_frac_exp_overflow_i32");
    } else if i == 51 {
        reveal_strlit("float_frac_exp_underflow_i32");
    } else if i == 52 {
        reveal_strlit("float_frac_final_overflow");
    } else if i == 53 {
        reveal_strlit("float_frac_noexp_combined_overflow");
    } else if i == 54 {
        reveal_strlit("float_frac_pow10_overflow");
    } else if i == 55 {
        reveal_strlit("float_hex_char_after_underscore");
    } else if i == 56 {
        reveal_strlit("float_hex_char_in_part");
    } else if i == 57 {
        reveal_strlit("float_invalid_char_after_underscore");
    } else if i == 58 {
        reveal_strlit("float_invalid_inf_casing_allcaps");
    } else if i == 59 {
        reveal_strlit("float_invalid_inf_casing_titlecase");
    }
}

proof fn lemma_plain_5(i: int)
    requires
        60 <= i < 72,
    ensures
        plain_name(marker_name_spec(i)),
{
    if i == 60 {
        reveal_strlit("float_invalid_nan_casing_allcaps");
    } else if i == 61 {
        reveal_strlit("float_invalid_nan_casing_camelcase");
    } else if i == 62 {
        reveal_strlit("float_invalid_nan_casing_titlecase");
    } else if i == 63 {
        reveal_strlit("float_multiple_underscores");
    } else if i == 64 {
        reveal_strlit("float_no_digit_after_dot");
    } else if i == 65 {
        reveal_strlit("float_no_digit_after_dot_eof");
    } else if i == 66 {
        reveal_strlit("float_underscore_at_end");
    } else if i == 67 {
        reveal_strlit("full_date_expect_mday_after_month");
    } else if i == 68 {
        reveal_strlit("full_date_first_dash_without_second");
    } else if i == 69 {
        reveal_strlit("full_date_first_dash_wrong_char");
    } else if i == 70 {
        reveal_strlit("full_date_second_dash_wrong_char");
    } else if i == 71 {
        reveal_strlit("inline_table_conflicting_keys");
    }
}

proof fn lemma_plain_6(i: int)
    requires
        72 <= i < 84,
    ensures
        plain_name(marker_name_spec(i)),
{
    if i == 72 {
        reveal_strlit("inline_table_open_eof");
    } else if i == 73 {
        reveal_strlit("inline_table_redefined_closed");
    } else if i == 74 {
        reveal_strlit("inline_table_redefined_explicit");
    } else if i == 75 {
        reveal_strlit("inline_table_redefined_inline");
    } else if i == 76 {
        reveal_strlit("inline_table_sep_eof");
    } else if i == 77 {
        reveal_strlit("inline_table_sep_expected_comma");
    } else if i == 78 {
        reveal_strlit("inline_table_unterminated");
    } else if i == 79 {
        reveal_strlit("integer_bin_dec_digit_after_prefix");
    } else if i == 80 {
        reveal_strlit("integer_bin_dec_digit_after_underscore");
    } else if i == 81 {
        reveal_strlit("integer_bin_dec_digit_in_body");
    } else if i == 82 {
        reveal_strlit("integer_bin_double_underscore");
    } else if i == 83 {
        reveal_strlit("integer_bin_hex_digit_after_prefix");
    }
}

proof fn lemma_plain_7(i: int)
    requires
        84 <= i < 96,
    ensures
        plain_name(marker_name_spec(i)),
{
    if i == 84 {
        reveal_strlit("integer_bin_hex_digit_after_underscore");
    } else if i == 85 {
        reveal_strlit("integer_bin_hex_digit_in_body");
    } else if i == 86 {
        reveal_strlit("integer_bin_invalid_char_after_prefix");
    } else if i == 87 {
        reveal_strlit("integer_bin_invalid_char_after_underscore");
    } else if i == 88 {
        reveal_strlit("integer_bin_no_digits_after_prefix");
    } else if i == 89 {
        reveal_strlit("integer_bin_oct_digit_after_prefix");
    } else if i == 90 {
        reveal_strlit("integer_bin_oct_digit_after_underscore");
    } else if i == 91 {
        reveal_strlit("integer_bin_oct_digit_in_body");
    } else if i == 92 {
        reveal_strlit("integer_bin_overflow");
    } else if i == 93 {
        reveal_strlit("integer_bin_prefix_uppercase");
    } else if i == 94 {
        reveal_strlit("integer_bin_underscore_after_prefix");
    } else if i == 95 {
        reveal_strlit("integer_bin_underscore_at_end");
    }
}

proof fn lemma_plain_8(i: int)
    requires
        96 <= i < 108,
    ensures
        plain_name(marker_name_spec(i)),
{
    if i == 96 {
        reveal_strlit("integer_dec_double_underscore");
    } else if i == 97 {
        reveal_strlit("integer_dec_hex_char_after_underscore");
    } else if i == 98 {
        reveal_strlit("integer_dec_hex_char_in_body");
    } else if i == 99 {
        reveal_strlit("integer_dec_invalid_char_after_underscore");
    } else if i == 100 {
        reveal_strlit("integer_dec_invalid_char_after_zero");
    } else if i == 101 {
        reveal_strlit("integer_dec_leading_zero_digit");
    } else if i == 102 {
        reveal_strlit("integer_dec_leading_zero_underscore");
    } else if i == 103 {
        reveal_strlit("integer_dec_minus_sign_no_digits_eof");
    } else if i == 104 {
        reveal_strlit("integer_dec_minus_sign_no_digits_other");
    } else if i == 105 {
        reveal_strlit("integer_dec_overflow_plus_sign");
    } else if i == 106 {
        reveal_strlit("integer_dec_overflow_unsigned");
    } else if i == 107 {
        reveal_strlit("integer_dec_plus_sign_no_digits_eof");
    }
}

proof fn lemma_plain_9(i: int)
    requires
        108 <= i < 120,
    ensures
        plain_name(marker_name_spec(i)),
{
    if i == 108 {
        reveal_strlit("integer_dec_plus_sign_no_digits_other");
    } else if i == 109 {
        reveal_strlit("integer_dec_underflow_minus_sign");
    } else if i == 110 {
        reveal_strlit("integer_dec_underscore_at_end");
    } else if i == 111 {
        reveal_strlit("integer_hex_double_underscore");
    } else if i == 112 {
        reveal_strlit("integer_hex_invalid_char_after_prefix");
    } else if i == 113 {
        reveal_strlit("integer_hex_invalid_char_after_underscore");
    } else if i == 114 {
        reveal_strlit("integer_hex_no_digits_after_prefix");
    } else if i == 115 {
        reveal_strlit("integer_hex_overflow");
    } else if i == 116 {
        reveal_strlit("integer_hex_prefix_uppercase");
    } else if i == 117 {
        reveal_strlit("integer_hex_underscore_after_prefix");
    } else if i == 118 {
        reveal_strlit("integer_hex_underscore_at_end");
    } else if i == 119 {
        reveal_strlit("integer_oct_dec_digit_after_prefix");
    }
}

proof fn lemma_plain_10(i: int)
    requires
        120 <= i < 132,
    ensures
        plain_name(marker_name_spec(i)),
{
    if i == 120 {
        reveal_strlit("integer_oct_dec_digit_after_underscore");
    } else if i == 121 {
        reveal_strlit("integer_oct_dec_digit_in_body");
    } else if i == 122 {
        reveal_strlit("integer_oct_double_underscore");
    } else if i == 123 {
        reveal_strlit("integer_oct_hex_digit_after_prefix");
    } else if i == 124 {
        reveal_strlit("integer_oct_hex_digit_after_underscore");
    } else if i == 125 {
        reveal_strlit("integer_oct_hex_digit_in_body");
    } else if i == 126 {
        reveal_strlit("integer_oct_invalid_char_after_prefix");
    } else if i == 127 {
        reveal_strlit("integer_oct_invalid_char_after_underscore");
    } else if i == 128 {
        reveal_strlit("integer_oct_no_digits_after_prefix");
    } else if i == 129 {
        reveal_strlit("integer_oct_overflow");
    } else if i == 130 {
        reveal_strlit("integer_oct_prefix_uppercase");
    } else if i == 131 {
        reveal_strlit("integer_oct_underscore_after_prefix");
    }
}

proof fn lemma_plain_11(i: int)
    requires
        132 <= i < 144,
    ensures
        plain_name(marker_name_spec(i)),
{
    if i == 132 {
        reveal_strlit("integer_oct_underscore_at_end");
    } else if i == 133 {
        reveal_strlit("integer_signed_bin_prefix");
    } else if i == 134 {
        reveal_strlit("integer_signed_hex_prefix");
    } else if i == 135 {
        reveal_strlit("integer_signed_oct_prefix");
    } else if i == 136 {
        reveal_strlit("key_value_missing_equals_char");
    } else if i == 137 {
        reveal_strlit("key_value_missing_equals_eof");
    } else if i == 138 {
        reveal_strlit("key_value_missing_value_eof");
    } else if i == 139 {
        reveal_strlit("key_value_missing_value_nomatch");
    } else if i == 140 {
        reveal_strlit("literal_string_invalid_char");
    } else if i == 141 {
        reveal_strlit("literal_string_missing_close_eof");
    } else if i == 142 {
        reveal_strlit("literal_string_newline");
    } else if i == 143 {
        reveal_strlit("ml_basic_escaped_newline_missing_newline");
    }
}

proof fn lemma_plain_12(i: int)
    requires
        144 <= i < 156,
    ensures
        plain_name(marker_name_spec(i)),
{
    if i == 144 {
        reveal_strlit("ml_basic_missing_close_after_newline");
    } else if i == 145 {
        reveal_strlit("ml_basic_missing_close_no_newline");
    } else if i == 146 {
        reveal_strlit("ml_basic_open_eof");
    } else if i == 147 {
        reveal_strlit("ml_basic_quotes_without_content");
    } else if i == 148 {
        reveal_strlit("ml_literal_missing_close_after_newline");
    } else if i == 149 {
        reveal_strlit("ml_literal_missing_close_no_newline");
    } else if i == 150 {
        reveal_strlit("ml_literal_open_eof");
    } else if i == 151 {
        reveal_strlit("ml_literal_quotes_without_content");
    } else if i == 152 {
        reveal_strlit("numoffset_expect_colon_eof");
    } else if i == 153 {
        reveal_strlit("numoffset_expect_colon_wrong_char");
    } else if i == 154 {
        reveal_strlit("numoffset_expect_hour_after_sign");
    } else if i == 155 {
        reveal_strlit("numoffset_expect_minute_after_colon");
    }
}

proof fn lemma_plain_13(i: int)
    requires
        156 <= i < 168,
    ensures
        plain_name(marker_name_spec(i)),
{
    if i == 156 {
        reveal_strlit("partial_time_expect_second_after_minute");
    } else if i == 157 {
        reveal_strlit("partial_time_second_colon_without_first");
    } else if i == 158 {
        reveal_strlit("quoted_key_multiline_basic");
    } else if i == 159 {
        reveal_strlit("quoted_key_multiline_literal");
    } else if i == 160 {
        reveal_strlit("std_table_duplicate");
    } else if i == 161 {
        reveal_strlit("std_table_empty_name");
    } else if i == 162 {
        reveal_strlit("std_table_missing_close_char");
    } else if i == 163 {
        reveal_strlit("std_table_missing_close_eof");
    } else if i == 164 {
        reveal_strlit("std_table_open_eof");
    } else if i == 165 {
        reveal_strlit("std_table_redefines_array_table");
    } else if i == 166 {
        reveal_strlit("std_table_redefines_implicit_table");
    } else if i == 167 {
        reveal_strlit("std_table_redefines_inline_table");
    }
}

proof fn lemma_plain_14(i: int)
    requires
        168 <= i < 180,
    ensures
        plain_name(marker_name_spec(i)),
{
    if i == 168 {
        reveal_strlit("string_invalid_escape");
    } else if i == 169 {
        reveal_strlit("string_unicode_escape_invalid_hex");
    } else if i == 170 {
        reveal_strlit("string_unicode_escape_invalid_scalar");
    } else if i == 171 {
        reveal_strlit("time_hour_first_char_not_digit");
    } else if i == 172 {
        reveal_strlit("time_hour_out_of_range");
    } else if i == 173 {
        reveal_strlit("time_hour_second_char_not_digit");
    } else if i == 174 {
        reveal_strlit("time_minute_first_char_not_digit");
    } else if i == 175 {
        reveal_strlit("time_minute_out_of_range");
    } else if i == 176 {
        reveal_strlit("time_minute_second_char_not_digit");
    } else if i == 177 {
        reveal_strlit("time_secfrac_no_digit_after_dot_eof");
    } else if i == 178 {
        reveal_strlit("time_secfrac_no_digit_after_dot_nondigit");
    } else if i == 179 {
        reveal_strlit("time_second_first_char_not_digit");
    }
}

proof fn lemma_plain_15(i: int)
    requires
        180 <= i < 184,
    ensures
        plain_name(marker_name_spec(i)),
{
    if i == 180 {
        reveal_strlit("time_second_out_of_range");
    } else if i == 181 {
        reveal_strlit("time_second_second_char_not_digit");
    } else if i == 182 {
        reveal_strlit("toml_expected_newline_between_expressions");
    } else if i == 183 {
        reveal_strlit("toml_table_merge_type_mismatch");
    }
}

/// Every catalog name is a plain word.
pub proof fn lemma_catalog_plain(i: int)
    requires
        0 <= i < MARKER_COUNT,
    ensures
        plain_name(marker_name_spec(i)),
{
    if i < 12 {
        lemma_plain_0(i);
    } else if i < 24 {
        lemma_plain_1(i);
    } else if i < 36 {
        lemma_plain_2(i);
    } else if i < 48 {
        lemma_plain_3(i);
    } else if i < 60 {
        lemma_plain_4(i);
    } else if i < 72 {
        lemma_plain_5(i);
    } else if i < 84 {
        lemma_plain_6(i);
    } else if i < 96 {
        lemma_plain_7(i);
    } else if i < 108 {
        lemma_plain_8(i);
    } else if i < 120 {
        lemma_plain_9(i);
    } else if i < 132 {
        lemma_plain_10(i);
    } else if i < 144 {
        lemma_plain_11(i);
    } else if i < 156 {
        lemma_plain_12(i);
    } else if i < 168 {
        lemma_plain_13(i);
    } else if i < 180 {
        lemma_plain_14(i);
    } else if i < 184 {
        lemma_plain_15(i);
    }
}

/// Where the two IMP names fall among the TOML names.
proof fn lemma_imp_names_place()
    ensures
        seq_lt(marker_name_spec(37), marker_name_spec(0)),
        seq_lt(marker_name_spec(0), marker_name_spec(38)),
        seq_lt(marker_name_spec(183), marker_name_spec(1)),
        seq_lt(marker_name_spec(0), marker_name_spec(1)),
{
    reveal_strlit("division_by_zero");
    reveal_strlit("undefined_variable");
    reveal_strlit("datetime_expect_partial_time_after_delim");
    reveal_strlit("dotted_key_missing_segment");
    reveal_strlit("toml_table_merge_type_mismatch");
    lemma_seq_lt_at("datetime_expect_partial_time_after_delim"@, "division_by_zero"@, 1);
    lemma_seq_lt_at("division_by_zero"@, "dotted_key_missing_segment"@, 1);
    lemma_seq_lt_at("toml_table_merge_type_mismatch"@, "undefined_variable"@, 0);
    lemma_seq_lt_at("division_by_zero"@, "undefined_variable"@, 0);
}

/// The TOML names are in increasing order.
proof fn lemma_sorted(i: int, j: int)
    requires
        2 <= i < j < MARKER_COUNT,
    ensures
        seq_lt(marker_name_spec(i), marker_name_spec(j)),
    decreases j - i,
{
    lemma_step(j - 1);
    if j > i + 1 {
        lemma_sorted(i, j - 1);
        lemma_seq_lt_trans(marker_name_spec(i), marker_name_spec(j - 1), marker_name_spec(j));
    }
}

proof fn lemma_lt_ne(a: Seq<char>, b: Seq<char>)
    requires
        seq_lt(a, b),
    ensures
        a != b,
{
    if a == b {
        lemma_seq_lt_irrefl(a);
    }
}

/// Two places of the catalog hold two different names.
pub proof fn lemma_catalog_distinct(i: int, m: int)
    requires
        0 <= i < m < MARKER_COUNT,
    ensures
        marker_name_spec(i) != marker_name_spec(m),
{
    lemma_imp_names_place();
    let a = marker_name_spec(i);
    let b = marker_name_spec(m);
    if i >= 2 {
        lemma_sorted(i, m);
        lemma_lt_ne(a, b);
    } else if i == 0 && m == 1 {
        lemma_lt_ne(a, b);
    } else if i == 0 {
        if m < 37 {
            lemma_sorted(m, 37);
            lemma_seq_lt_trans(b, marker_name_spec(37), a);
            lemma_lt_ne(b, a);
        } else if m == 37 {
            lemma_lt_ne(b, a);
        } else if m == 38 {
            lemma_lt_ne(a, b);
        } else {
            lemma_sorted(38, m);
            lemma_seq_lt_trans(a, marker_name_spec(38), b);
            lemma_lt_ne(a, b);
        }
    } else {
        if m < 183 {
            lemma_sorted(m, 183);
            lemma_seq_lt_trans(b, marker_name_spec(183), a);
        }
        lemma_lt_ne(b, a);
    }
}

proof fn lemma_find_at(name: Seq<char>, from: int, m: int)
    requires
        0 <= from <= m < MARKER_COUNT,
        name == marker_name_spec(m),
    ensures
        find_marker(name, from) == Some(m as usize),
    decreases m - from,
{
    if from < m {
        lemma_catalog_distinct(from, m);
        lemma_find_at(name, from + 1, m);
    }
}

/// Looking a marker's name up in the catalog gives the marker back.
pub proof fn lemma_marker_id_of_name(m: int)
    requires
        0 <= m < MARKER_COUNT,
    ensures
        marker_id_spec(marker_name_spec(m)) == Some(m as usize),
{
    lemma_find_at(marker_name_spec(m), 0, m);
}

} // verus!
