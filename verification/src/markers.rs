//! The catalog of named markers and their identifiers.
//!
//! A marker is a named program point of a reference semantics (an error case).
//! Each named marker has a stable integer identifier: its position in the
//! catalog below. The first two entries are the markers of the IMP semantics,
//! the others those of the TOML parser.

use vstd::prelude::*;
use crate::text::{chars_eq, chars_of};

verus! {

/// Number of named markers.
pub const MARKER_COUNT: usize = 184;

/// Number of IMP markers (they come first in the catalog).
pub const IMP_MARKER_COUNT: usize = 2;

/// The identifier of `division_by_zero`.
pub const DIVISION_BY_ZERO: usize = 0;

/// The identifier of `undefined_variable`.
pub const UNDEFINED_VARIABLE: usize = 1;

/// The name of the marker with identifier `i` (for `i < MARKER_COUNT`).
pub open spec fn marker_name_spec(i: int) -> Seq<char> {
    if i == 0 {
        "division_by_zero"@
    } else if i == 1 {
        "undefined_variable"@
    } else if i == 2 {
        "array_comment_missing_newline"@
    } else if i == 3 {
        "array_of_tables_inline_array"@
    } else if i == 4 {
        "array_open_after_ws_eof"@
    } else if i == 5 {
        "array_open_eof"@
    } else if i == 6 {
        "array_sep_eof_after_comma"@
    } else if i == 7 {
        "array_table_empty_name"@
    } else if i == 8 {
        "array_table_missing_close_char"@
    } else if i == 9 {
        "array_table_missing_close_eof"@
    } else if i == 10 {
        "array_table_open_eof"@
    } else if i == 11 {
        "array_table_redefines_closed_table"@
    } else if i == 12 {
        "array_table_redefines_inline_array"@
    } else if i == 13 {
        "array_table_redefines_inline_table"@
    } else if i == 14 {
        "array_table_redefines_std_table"@
    } else if i == 15 {
        "array_value_eof_after_value"@
    } else if i == 16 {
        "array_value_invalid_separator"@
    } else if i == 17 {
        "array_values_expected_value"@
    } else if i == 18 {
        "bare_key_invalid_start"@
    } else if i == 19 {
        "basic_string_invalid_char"@
    } else if i == 20 {
        "basic_string_missing_close_eof"@
    } else if i == 21 {
        "basic_string_newline"@
    } else if i == 22 {
        "boolean_invalid"@
    } else if i == 23 {
        "boolean_invalid_allcaps_true"@
    } else if i == 24 {
        "boolean_invalid_capital_false"@
    } else if i == 25 {
        "boolean_invalid_capital_true"@
    } else if i == 26 {
        "comment_invalid_char"@
    } else if i == 27 {
        "date_invalid_day"@
    } else if i == 28 {
        "date_invalid_month"@
    } else if i == 29 {
        "date_mday_first_char_not_digit"@
    } else if i == 30 {
        "date_mday_second_char_not_digit"@
    } else if i == 31 {
        "date_month_first_char_not_digit"@
    } else if i == 32 {
        "date_month_second_char_not_digit"@
    } else if i == 33 {
        "date_year_first_char_not_digit"@
    } else if i == 34 {
        "date_year_fourth_char_not_digit"@
    } else if i == 35 {
        "date_year_second_char_not_digit"@
    } else if i == 36 {
        "date_year_third_char_not_digit"@
    } else if i == 37 {
        "datetime_expect_partial_time_after_delim"@
    } else if i == 38 {
        "dotted_key_missing_segment"@
    } else if i == 39 {
        "dotted_key_redefines_array_table"@
    } else if i == 40 {
        "dotted_key_redefines_inline_table"@
    } else if i == 41 {
        "dotted_key_redefines_std_table"@
    } else if i == 42 {
        "float_duplicate_exponent"@
    } else if i == 43 {
        "float_exp_no_digit_after_e"@
    } else if i == 44 {
        "float_exp_only_exp_overflow_i32"@
    } else if i == 45 {
        "float_exp_only_exp_underflow_i32"@
    } else if i == 46 {
        "float_exp_only_final_overflow"@
    } else if i == 47 {
        "float_exp_only_pow10_overflow"@
    } else if i == 48 {
        "float_frac_combined_overflow"@
    } else if i == 49 {
        "float_frac_eof_combined_overflow"@
    } else if i == 50 {
        "float_frac_exp_overflow_i32"@
    } else if i == 51 {
        "float_frac_exp_underflow_i32"@
    } else if i == 52 {
        "float_frac_final_overflow"@
    } else if i == 53 {
        "float_frac_noexp_combined_overflow"@
    } else if i == 54 {
        "float_frac_pow10_overflow"@
    } else if i == 55 {
        "float_hex_char_after_underscore"@
    } else if i == 56 {
        "float_hex_char_in_part"@
    } else if i == 57 {
        "float_invalid_char_after_underscore"@
    } else if i == 58 {
        "float_invalid_inf_casing_allcaps"@
    } else if i == 59 {
        "float_invalid_inf_casing_titlecase"@
    } else if i == 60 {
        "float_invalid_nan_casing_allcaps"@
    } else if i == 61 {
        "float_invalid_nan_casing_camelcase"@
    } else if i == 62 {
        "float_invalid_nan_casing_titlecase"@
    } else if i == 63 {
        "float_multiple_underscores"@
    } else if i == 64 {
        "float_no_digit_after_dot"@
    } else if i == 65 {
        "float_no_digit_after_dot_eof"@
    } else if i == 66 {
        "float_underscore_at_end"@
    } else if i == 67 {
        "full_date_expect_mday_after_month"@
    } else if i == 68 {
        "full_date_first_dash_without_second"@
    } else if i == 69 {
        "full_date_first_dash_wrong_char"@
    } else if i == 70 {
        "full_date_second_dash_wrong_char"@
    } else if i == 71 {
        "inline_table_conflicting_keys"@
    } else if i == 72 {
        "inline_table_open_eof"@
    } else if i == 73 {
        "inline_table_redefined_closed"@
    } else if i == 74 {
        "inline_table_redefined_explicit"@
    } else if i == 75 {
        "inline_table_redefined_inline"@
    } else if i == 76 {
        "inline_table_sep_eof"@
    } else if i == 77 {
        "inline_table_sep_expected_comma"@
    } else if i == 78 {
        "inline_table_unterminated"@
    } else if i == 79 {
        "integer_bin_dec_digit_after_prefix"@
    } else if i == 80 {
        "integer_bin_dec_digit_after_underscore"@
    } else if i == 81 {
        "integer_bin_dec_digit_in_body"@
    } else if i == 82 {
        "integer_bin_double_underscore"@
    } else if i == 83 {
        "integer_bin_hex_digit_after_prefix"@
    } else if i == 84 {
        "integer_bin_hex_digit_after_underscore"@
    } else if i == 85 {
        "integer_bin_hex_digit_in_body"@
    } else if i == 86 {
        "integer_bin_invalid_char_after_prefix"@
    } else if i == 87 {
        "integer_bin_invalid_char_after_underscore"@
    } else if i == 88 {
        "integer_bin_no_digits_after_prefix"@
    } else if i == 89 {
        "integer_bin_oct_digit_after_prefix"@
    } else if i == 90 {
        "integer_bin_oct_digit_after_underscore"@
    } else if i == 91 {
        "integer_bin_oct_digit_in_body"@
    } else if i == 92 {
        "integer_bin_overflow"@
    } else if i == 93 {
        "integer_bin_prefix_uppercase"@
    } else if i == 94 {
        "integer_bin_underscore_after_prefix"@
    } else if i == 95 {
        "integer_bin_underscore_at_end"@
    } else if i == 96 {
        "integer_dec_double_underscore"@
    } else if i == 97 {
        "integer_dec_hex_char_after_underscore"@
    } else if i == 98 {
        "integer_dec_hex_char_in_body"@
    } else if i == 99 {
        "integer_dec_invalid_char_after_underscore"@
    } else if i == 100 {
        "integer_dec_invalid_char_after_zero"@
    } else if i == 101 {
        "integer_dec_leading_zero_digit"@
    } else if i == 102 {
        "integer_dec_leading_zero_underscore"@
    } else if i == 103 {
        "integer_dec_minus_sign_no_digits_eof"@
    } else if i == 104 {
        "integer_dec_minus_sign_no_digits_other"@
    } else if i == 105 {
        "integer_dec_overflow_plus_sign"@
    } else if i == 106 {
        "integer_dec_overflow_unsigned"@
    } else if i == 107 {
        "integer_dec_plus_sign_no_digits_eof"@
    } else if i == 108 {
        "integer_dec_plus_sign_no_digits_other"@
    } else if i == 109 {
        "integer_dec_underflow_minus_sign"@
    } else if i == 110 {
        "integer_dec_underscore_at_end"@
    } else if i == 111 {
        "integer_hex_double_underscore"@
    } else if i == 112 {
        "integer_hex_invalid_char_after_prefix"@
    } else if i == 113 {
        "integer_hex_invalid_char_after_underscore"@
    } else if i == 114 {
        "integer_hex_no_digits_after_prefix"@
    } else if i == 115 {
        "integer_hex_overflow"@
    } else if i == 116 {
        "integer_hex_prefix_uppercase"@
    } else if i == 117 {
        "integer_hex_underscore_after_prefix"@
    } else if i == 118 {
        "integer_hex_underscore_at_end"@
    } else if i == 119 {
        "integer_oct_dec_digit_after_prefix"@
    } else if i == 120 {
        "integer_oct_dec_digit_after_underscore"@
    } else if i == 121 {
        "integer_oct_dec_digit_in_body"@
    } else if i == 122 {
        "integer_oct_double_underscore"@
    } else if i == 123 {
        "integer_oct_hex_digit_after_prefix"@
    } else if i == 124 {
        "integer_oct_hex_digit_after_underscore"@
    } else if i == 125 {
        "integer_oct_hex_digit_in_body"@
    } else if i == 126 {
        "integer_oct_invalid_char_after_prefix"@
    } else if i == 127 {
        "integer_oct_invalid_char_after_underscore"@
    } else if i == 128 {
        "integer_oct_no_digits_after_prefix"@
    } else if i == 129 {
        "integer_oct_overflow"@
    } else if i == 130 {
        "integer_oct_prefix_uppercase"@
    } else if i == 131 {
        "integer_oct_underscore_after_prefix"@
    } else if i == 132 {
        "integer_oct_underscore_at_end"@
    } else if i == 133 {
        "integer_signed_bin_prefix"@
    } else if i == 134 {
        "integer_signed_hex_prefix"@
    } else if i == 135 {
        "integer_signed_oct_prefix"@
    } else if i == 136 {
        "key_value_missing_equals_char"@
    } else if i == 137 {
        "key_value_missing_equals_eof"@
    } else if i == 138 {
        "key_value_missing_value_eof"@
    } else if i == 139 {
        "key_value_missing_value_nomatch"@
    } else if i == 140 {
        "literal_string_invalid_char"@
    } else if i == 141 {
        "literal_string_missing_close_eof"@
    } else if i == 142 {
        "literal_string_newline"@
    } else if i == 143 {
        "ml_basic_escaped_newline_missing_newline"@
    } else if i == 144 {
        "ml_basic_missing_close_after_newline"@
    } else if i == 145 {
        "ml_basic_missing_close_no_newline"@
    } else if i == 146 {
        "ml_basic_open_eof"@
    } else if i == 147 {
        "ml_basic_quotes_without_content"@
    } else if i == 148 {
        "ml_literal_missing_close_after_newline"@
    } else if i == 149 {
        "ml_literal_missing_close_no_newline"@
    } else if i == 150 {
        "ml_literal_open_eof"@
    } else if i == 151 {
        "ml_literal_quotes_without_content"@
    } else if i == 152 {
        "numoffset_expect_colon_eof"@
    } else if i == 153 {
        "numoffset_expect_colon_wrong_char"@
    } else if i == 154 {
        "numoffset_expect_hour_after_sign"@
    } else if i == 155 {
        "numoffset_expect_minute_after_colon"@
    } else if i == 156 {
        "partial_time_expect_second_after_minute"@
    } else if i == 157 {
        "partial_time_second_colon_without_first"@
    } else if i == 158 {
        "quoted_key_multiline_basic"@
    } else if i == 159 {
        "quoted_key_multiline_literal"@
    } else if i == 160 {
        "std_table_duplicate"@
    } else if i == 161 {
        "std_table_empty_name"@
    } else if i == 162 {
        "std_table_missing_close_char"@
    } else if i == 163 {
        "std_table_missing_close_eof"@
    } else if i == 164 {
        "std_table_open_eof"@
    } else if i == 165 {
        "std_table_redefines_array_table"@
    } else if i == 166 {
        "std_table_redefines_implicit_table"@
    } else if i == 167 {
        "std_table_redefines_inline_table"@
    } else if i == 168 {
        "string_invalid_escape"@
    } else if i == 169 {
        "string_unicode_escape_invalid_hex"@
    } else if i == 170 {
        "string_unicode_escape_invalid_scalar"@
    } else if i == 171 {
        "time_hour_first_char_not_digit"@
    } else if i == 172 {
        "time_hour_out_of_range"@
    } else if i == 173 {
        "time_hour_second_char_not_digit"@
    } else if i == 174 {
        "time_minute_first_char_not_digit"@
    } else if i == 175 {
        "time_minute_out_of_range"@
    } else if i == 176 {
        "time_minute_second_char_not_digit"@
    } else if i == 177 {
        "time_secfrac_no_digit_after_dot_eof"@
    } else if i == 178 {
        "time_secfrac_no_digit_after_dot_nondigit"@
    } else if i == 179 {
        "time_second_first_char_not_digit"@
    } else if i == 180 {
        "time_second_out_of_range"@
    } else if i == 181 {
        "time_second_second_char_not_digit"@
    } else if i == 182 {
        "toml_expected_newline_between_expressions"@
    } else {
        "toml_table_merge_type_mismatch"@
    }
}

/// The name of the marker with identifier `i`.
pub fn marker_name(i: usize) -> (s: &'static str)
    requires
        i < MARKER_COUNT,
    ensures
        s@ == marker_name_spec(i as int),
{
    if i == 0 {
        "division_by_zero"
    } else if i == 1 {
        "undefined_variable"
    } else if i == 2 {
        "array_comment_missing_newline"
    } else if i == 3 {
        "array_of_tables_inline_array"
    } else if i == 4 {
        "array_open_after_ws_eof"
    } else if i == 5 {
        "array_open_eof"
    } else if i == 6 {
        "array_sep_eof_after_comma"
    } else if i == 7 {
        "array_table_empty_name"
    } else if i == 8 {
        "array_table_missing_close_char"
    } else if i == 9 {
        "array_table_missing_close_eof"
    } else if i == 10 {
        "array_table_open_eof"
    } else if i == 11 {
        "array_table_redefines_closed_table"
    } else if i == 12 {
        "array_table_redefines_inline_array"
    } else if i == 13 {
        "array_table_redefines_inline_table"
    } else if i == 14 {
        "array_table_redefines_std_table"
    } else if i == 15 {
        "array_value_eof_after_value"
    } else if i == 16 {
        "array_value_invalid_separator"
    } else if i == 17 {
        "array_values_expected_value"
    } else if i == 18 {
        "bare_key_invalid_start"
    } else if i == 19 {
        "basic_string_invalid_char"
    } else if i == 20 {
        "basic_string_missing_close_eof"
    } else if i == 21 {
        "basic_string_newline"
    } else if i == 22 {
        "boolean_invalid"
    } else if i == 23 {
        "boolean_invalid_allcaps_true"
    } else if i == 24 {
        "boolean_invalid_capital_false"
    } else if i == 25 {
        "boolean_invalid_capital_true"
    } else if i == 26 {
        "comment_invalid_char"
    } else if i == 27 {
        "date_invalid_day"
    } else if i == 28 {
        "date_invalid_month"
    } else if i == 29 {
        "date_mday_first_char_not_digit"
    } else if i == 30 {
        "date_mday_second_char_not_digit"
    } else if i == 31 {
        "date_month_first_char_not_digit"
    } else if i == 32 {
        "date_month_second_char_not_digit"
    } else if i == 33 {
        "date_year_first_char_not_digit"
    } else if i == 34 {
        "date_year_fourth_char_not_digit"
    } else if i == 35 {
        "date_year_second_char_not_digit"
    } else if i == 36 {
        "date_year_third_char_not_digit"
    } else if i == 37 {
        "datetime_expect_partial_time_after_delim"
    } else if i == 38 {
        "dotted_key_missing_segment"
    } else if i == 39 {
        "dotted_key_redefines_array_table"
    } else if i == 40 {
        "dotted_key_redefines_inline_table"
    } else if i == 41 {
        "dotted_key_redefines_std_table"
    } else if i == 42 {
        "float_duplicate_exponent"
    } else if i == 43 {
        "float_exp_no_digit_after_e"
    } else if i == 44 {
        "float_exp_only_exp_overflow_i32"
    } else if i == 45 {
        "float_exp_only_exp_underflow_i32"
    } else if i == 46 {
        "float_exp_only_final_overflow"
    } else if i == 47 {
        "float_exp_only_pow10_overflow"
    } else if i == 48 {
        "float_frac_combined_overflow"
    } else if i == 49 {
        "float_frac_eof_combined_overflow"
    } else if i == 50 {
        "float_frac_exp_overflow_i32"
    } else if i == 51 {
        "float_frac_exp_underflow_i32"
    } else if i == 52 {
        "float_frac_final_overflow"
    } else if i == 53 {
        "float_frac_noexp_combined_overflow"
    } else if i == 54 {
        "float_frac_pow10_overflow"
    } else if i == 55 {
        "float_hex_char_after_underscore"
    } else if i == 56 {
        "float_hex_char_in_part"
    } else if i == 57 {
        "float_invalid_char_after_underscore"
    } else if i == 58 {
        "float_invalid_inf_casing_allcaps"
    } else if i == 59 {
        "float_invalid_inf_casing_titlecase"
    } else if i == 60 {
        "float_invalid_nan_casing_allcaps"
    } else if i == 61 {
        "float_invalid_nan_casing_camelcase"
    } else if i == 62 {
        "float_invalid_nan_casing_titlecase"
    } else if i == 63 {
        "float_multiple_underscores"
    } else if i == 64 {
        "float_no_digit_after_dot"
    } else if i == 65 {
        "float_no_digit_after_dot_eof"
    } else if i == 66 {
        "float_underscore_at_end"
    } else if i == 67 {
        "full_date_expect_mday_after_month"
    } else if i == 68 {
        "full_date_first_dash_without_second"
    } else if i == 69 {
        "full_date_first_dash_wrong_char"
    } else if i == 70 {
        "full_date_second_dash_wrong_char"
    } else if i == 71 {
        "inline_table_conflicting_keys"
    } else if i == 72 {
        "inline_table_open_eof"
    } else if i == 73 {
        "inline_table_redefined_closed"
    } else if i == 74 {
        "inline_table_redefined_explicit"
    } else if i == 75 {
        "inline_table_redefined_inline"
    } else if i == 76 {
        "inline_table_sep_eof"
    } else if i == 77 {
        "inline_table_sep_expected_comma"
    } else if i == 78 {
        "inline_table_unterminated"
    } else if i == 79 {
        "integer_bin_dec_digit_after_prefix"
    } else if i == 80 {
        "integer_bin_dec_digit_after_underscore"
    } else if i == 81 {
        "integer_bin_dec_digit_in_body"
    } else if i == 82 {
        "integer_bin_double_underscore"
    } else if i == 83 {
        "integer_bin_hex_digit_after_prefix"
    } else if i == 84 {
        "integer_bin_hex_digit_after_underscore"
    } else if i == 85 {
        "integer_bin_hex_digit_in_body"
    } else if i == 86 {
        "integer_bin_invalid_char_after_prefix"
    } else if i == 87 {
        "integer_bin_invalid_char_after_underscore"
    } else if i == 88 {
        "integer_bin_no_digits_after_prefix"
    } else if i == 89 {
        "integer_bin_oct_digit_after_prefix"
    } else if i == 90 {
        "integer_bin_oct_digit_after_underscore"
    } else if i == 91 {
        "integer_bin_oct_digit_in_body"
    } else if i == 92 {
        "integer_bin_overflow"
    } else if i == 93 {
        "integer_bin_prefix_uppercase"
    } else if i == 94 {
        "integer_bin_underscore_after_prefix"
    } else if i == 95 {
        "integer_bin_underscore_at_end"
    } else if i == 96 {
        "integer_dec_double_underscore"
    } else if i == 97 {
        "integer_dec_hex_char_after_underscore"
    } else if i == 98 {
        "integer_dec_hex_char_in_body"
    } else if i == 99 {
        "integer_dec_invalid_char_after_underscore"
    } else if i == 100 {
        "integer_dec_invalid_char_after_zero"
    } else if i == 101 {
        "integer_dec_leading_zero_digit"
    } else if i == 102 {
        "integer_dec_leading_zero_underscore"
    } else if i == 103 {
        "integer_dec_minus_sign_no_digits_eof"
    } else if i == 104 {
        "integer_dec_minus_sign_no_digits_other"
    } else if i == 105 {
        "integer_dec_overflow_plus_sign"
    } else if i == 106 {
        "integer_dec_overflow_unsigned"
    } else if i == 107 {
        "integer_dec_plus_sign_no_digits_eof"
    } else if i == 108 {
        "integer_dec_plus_sign_no_digits_other"
    } else if i == 109 {
        "integer_dec_underflow_minus_sign"
    } else if i == 110 {
        "integer_dec_underscore_at_end"
    } else if i == 111 {
        "integer_hex_double_underscore"
    } else if i == 112 {
        "integer_hex_invalid_char_after_prefix"
    } else if i == 113 {
        "integer_hex_invalid_char_after_underscore"
    } else if i == 114 {
        "integer_hex_no_digits_after_prefix"
    } else if i == 115 {
        "integer_hex_overflow"
    } else if i == 116 {
        "integer_hex_prefix_uppercase"
    } else if i == 117 {
        "integer_hex_underscore_after_prefix"
    } else if i == 118 {
        "integer_hex_underscore_at_end"
    } else if i == 119 {
        "integer_oct_dec_digit_after_prefix"
    } else if i == 120 {
        "integer_oct_dec_digit_after_underscore"
    } else if i == 121 {
        "integer_oct_dec_digit_in_body"
    } else if i == 122 {
        "integer_oct_double_underscore"
    } else if i == 123 {
        "integer_oct_hex_digit_after_prefix"
    } else if i == 124 {
        "integer_oct_hex_digit_after_underscore"
    } else if i == 125 {
        "integer_oct_hex_digit_in_body"
    } else if i == 126 {
        "integer_oct_invalid_char_after_prefix"
    } else if i == 127 {
        "integer_oct_invalid_char_after_underscore"
    } else if i == 128 {
        "integer_oct_no_digits_after_prefix"
    } else if i == 129 {
        "integer_oct_overflow"
    } else if i == 130 {
        "integer_oct_prefix_uppercase"
    } else if i == 131 {
        "integer_oct_underscore_after_prefix"
    } else if i == 132 {
        "integer_oct_underscore_at_end"
    } else if i == 133 {
        "integer_signed_bin_prefix"
    } else if i == 134 {
        "integer_signed_hex_prefix"
    } else if i == 135 {
        "integer_signed_oct_prefix"
    } else if i == 136 {
        "key_value_missing_equals_char"
    } else if i == 137 {
        "key_value_missing_equals_eof"
    } else if i == 138 {
        "key_value_missing_value_eof"
    } else if i == 139 {
        "key_value_missing_value_nomatch"
    } else if i == 140 {
        "literal_string_invalid_char"
    } else if i == 141 {
        "literal_string_missing_close_eof"
    } else if i == 142 {
        "literal_string_newline"
    } else if i == 143 {
        "ml_basic_escaped_newline_missing_newline"
    } else if i == 144 {
        "ml_basic_missing_close_after_newline"
    } else if i == 145 {
        "ml_basic_missing_close_no_newline"
    } else if i == 146 {
        "ml_basic_open_eof"
    } else if i == 147 {
        "ml_basic_quotes_without_content"
    } else if i == 148 {
        "ml_literal_missing_close_after_newline"
    } else if i == 149 {
        "ml_literal_missing_close_no_newline"
    } else if i == 150 {
        "ml_literal_open_eof"
    } else if i == 151 {
        "ml_literal_quotes_without_content"
    } else if i == 152 {
        "numoffset_expect_colon_eof"
    } else if i == 153 {
        "numoffset_expect_colon_wrong_char"
    } else if i == 154 {
        "numoffset_expect_hour_after_sign"
    } else if i == 155 {
        "numoffset_expect_minute_after_colon"
    } else if i == 156 {
        "partial_time_expect_second_after_minute"
    } else if i == 157 {
        "partial_time_second_colon_without_first"
    } else if i == 158 {
        "quoted_key_multiline_basic"
    } else if i == 159 {
        "quoted_key_multiline_literal"
    } else if i == 160 {
        "std_table_duplicate"
    } else if i == 161 {
        "std_table_empty_name"
    } else if i == 162 {
        "std_table_missing_close_char"
    } else if i == 163 {
        "std_table_missing_close_eof"
    } else if i == 164 {
        "std_table_open_eof"
    } else if i == 165 {
        "std_table_redefines_array_table"
    } else if i == 166 {
        "std_table_redefines_implicit_table"
    } else if i == 167 {
        "std_table_redefines_inline_table"
    } else if i == 168 {
        "string_invalid_escape"
    } else if i == 169 {
        "string_unicode_escape_invalid_hex"
    } else if i == 170 {
        "string_unicode_escape_invalid_scalar"
    } else if i == 171 {
        "time_hour_first_char_not_digit"
    } else if i == 172 {
        "time_hour_out_of_range"
    } else if i == 173 {
        "time_hour_second_char_not_digit"
    } else if i == 174 {
        "time_minute_first_char_not_digit"
    } else if i == 175 {
        "time_minute_out_of_range"
    } else if i == 176 {
        "time_minute_second_char_not_digit"
    } else if i == 177 {
        "time_secfrac_no_digit_after_dot_eof"
    } else if i == 178 {
        "time_secfrac_no_digit_after_dot_nondigit"
    } else if i == 179 {
        "time_second_first_char_not_digit"
    } else if i == 180 {
        "time_second_out_of_range"
    } else if i == 181 {
        "time_second_second_char_not_digit"
    } else if i == 182 {
        "toml_expected_newline_between_expressions"
    } else {
        "toml_table_merge_type_mismatch"
    }
}

/// Every catalog name is at least three characters long.
pub proof fn lemma_marker_name_len(i: int)
    requires
        0 <= i < MARKER_COUNT,
    ensures
        marker_name_spec(i).len() >= 3,
{
    reveal_strlit("division_by_zero");
    reveal_strlit("undefined_variable");
    reveal_strlit("array_comment_missing_newline");
    reveal_strlit("array_of_tables_inline_array");
    reveal_strlit("array_open_after_ws_eof");
    reveal_strlit("array_open_eof");
    reveal_strlit("array_sep_eof_after_comma");
    reveal_strlit("array_table_empty_name");
    reveal_strlit("array_table_missing_close_char");
    reveal_strlit("array_table_missing_close_eof");
    reveal_strlit("array_table_open_eof");
    reveal_strlit("array_table_redefines_closed_table");
    reveal_strlit("array_table_redefines_inline_array");
    reveal_strlit("array_table_redefines_inline_table");
    reveal_strlit("array_table_redefines_std_table");
    reveal_strlit("array_value_eof_after_value");
    reveal_strlit("array_value_invalid_separator");
    reveal_strlit("array_values_expected_value");
    reveal_strlit("bare_key_invalid_start");
    reveal_strlit("basic_string_invalid_char");
    reveal_strlit("basic_string_missing_close_eof");
    reveal_strlit("basic_string_newline");
    reveal_strlit("boolean_invalid");
    reveal_strlit("boolean_invalid_allcaps_true");
    reveal_strlit("boolean_invalid_capital_false");
    reveal_strlit("boolean_invalid_capital_true");
    reveal_strlit("comment_invalid_char");
    reveal_strlit("date_invalid_day");
    reveal_strlit("date_invalid_month");
    reveal_strlit("date_mday_first_char_not_digit");
    reveal_strlit("date_mday_second_char_not_digit");
    reveal_strlit("date_month_first_char_not_digit");
    reveal_strlit("date_month_second_char_not_digit");
    reveal_strlit("date_year_first_char_not_digit");
    reveal_strlit("date_year_fourth_char_not_digit");
    reveal_strlit("date_year_second_char_not_digit");
    reveal_strlit("date_year_third_char_not_digit");
    reveal_strlit("datetime_expect_partial_time_after_delim");
    reveal_strlit("dotted_key_missing_segment");
    reveal_strlit("dotted_key_redefines_array_table");
    reveal_strlit("dotted_key_redefines_inline_table");
    reveal_strlit("dotted_key_redefines_std_table");
    reveal_strlit("float_duplicate_exponent");
    reveal_strlit("float_exp_no_digit_after_e");
    reveal_strlit("float_exp_only_exp_overflow_i32");
    reveal_strlit("float_exp_only_exp_underflow_i32");
    reveal_strlit("float_exp_only_final_overflow");
    reveal_strlit("float_exp_only_pow10_overflow");
    reveal_strlit("float_frac_combined_overflow");
    reveal_strlit("float_frac_eof_combined_overflow");
    reveal_strlit("float_frac_exp_overflow_i32");
    reveal_strlit("float_frac_exp_underflow_i32");
    reveal_strlit("float_frac_final_overflow");
    reveal_strlit("float_frac_noexp_combined_overflow");
    reveal_strlit("float_frac_pow10_overflow");
    reveal_strlit("float_hex_char_after_underscore");
    reveal_strlit("float_hex_char_in_part");
    reveal_strlit("float_invalid_char_after_underscore");
    reveal_strlit("float_invalid_inf_casing_allcaps");
    reveal_strlit("float_invalid_inf_casing_titlecase");
    reveal_strlit("float_invalid_nan_casing_allcaps");
    reveal_strlit("float_invalid_nan_casing_camelcase");
    reveal_strlit("float_invalid_nan_casing_titlecase");
    reveal_strlit("float_multiple_underscores");
    reveal_strlit("float_no_digit_after_dot");
    reveal_strlit("float_no_digit_after_dot_eof");
    reveal_strlit("float_underscore_at_end");
    reveal_strlit("full_date_expect_mday_after_month");
    reveal_strlit("full_date_first_dash_without_second");
    reveal_strlit("full_date_first_dash_wrong_char");
    reveal_strlit("full_date_second_dash_wrong_char");
    reveal_strlit("inline_table_conflicting_keys");
    reveal_strlit("inline_table_open_eof");
    reveal_strlit("inline_table_redefined_closed");
    reveal_strlit("inline_table_redefined_explicit");
    reveal_strlit("inline_table_redefined_inline");
    reveal_strlit("inline_table_sep_eof");
    reveal_strlit("inline_table_sep_expected_comma");
    reveal_strlit("inline_table_unterminated");
    reveal_strlit("integer_bin_dec_digit_after_prefix");
    reveal_strlit("integer_bin_dec_digit_after_underscore");
    reveal_strlit("integer_bin_dec_digit_in_body");
    reveal_strlit("integer_bin_double_underscore");
    reveal_strlit("integer_bin_hex_digit_after_prefix");
    reveal_strlit("integer_bin_hex_digit_after_underscore");
    reveal_strlit("integer_bin_hex_digit_in_body");
    reveal_strlit("integer_bin_invalid_char_after_prefix");
    reveal_strlit("integer_bin_invalid_char_after_underscore");
    reveal_strlit("integer_bin_no_digits_after_prefix");
    reveal_strlit("integer_bin_oct_digit_after_prefix");
    reveal_strlit("integer_bin_oct_digit_after_underscore");
    reveal_strlit("integer_bin_oct_digit_in_body");
    reveal_strlit("integer_bin_overflow");
    reveal_strlit("integer_bin_prefix_uppercase");
    reveal_strlit("integer_bin_underscore_after_prefix");
    reveal_strlit("integer_bin_underscore_at_end");
    reveal_strlit("integer_dec_double_underscore");
    reveal_strlit("integer_dec_hex_char_after_underscore");
    reveal_strlit("integer_dec_hex_char_in_body");
    reveal_strlit("integer_dec_invalid_char_after_underscore");
    reveal_strlit("integer_dec_invalid_char_after_zero");
    reveal_strlit("integer_dec_leading_zero_digit");
    reveal_strlit("integer_dec_leading_zero_underscore");
    reveal_strlit("integer_dec_minus_sign_no_digits_eof");
    reveal_strlit("integer_dec_minus_sign_no_digits_other");
    reveal_strlit("integer_dec_overflow_plus_sign");
    reveal_strlit("integer_dec_overflow_unsigned");
    reveal_strlit("integer_dec_plus_sign_no_digits_eof");
    reveal_strlit("integer_dec_plus_sign_no_digits_other");
    reveal_strlit("integer_dec_underflow_minus_sign");
    reveal_strlit("integer_dec_underscore_at_end");
    reveal_strlit("integer_hex_double_underscore");
    reveal_strlit("integer_hex_invalid_char_after_prefix");
    reveal_strlit("integer_hex_invalid_char_after_underscore");
    reveal_strlit("integer_hex_no_digits_after_prefix");
    reveal_strlit("integer_hex_overflow");
    reveal_strlit("integer_hex_prefix_uppercase");
    reveal_strlit("integer_hex_underscore_after_prefix");
    reveal_strlit("integer_hex_underscore_at_end");
    reveal_strlit("integer_oct_dec_digit_after_prefix");
    reveal_strlit("integer_oct_dec_digit_after_underscore");
    reveal_strlit("integer_oct_dec_digit_in_body");
    reveal_strlit("integer_oct_double_underscore");
    reveal_strlit("integer_oct_hex_digit_after_prefix");
    reveal_strlit("integer_oct_hex_digit_after_underscore");
    reveal_strlit("integer_oct_hex_digit_in_body");
    reveal_strlit("integer_oct_invalid_char_after_prefix");
    reveal_strlit("integer_oct_invalid_char_after_underscore");
    reveal_strlit("integer_oct_no_digits_after_prefix");
    reveal_strlit("integer_oct_overflow");
    reveal_strlit("integer_oct_prefix_uppercase");
    reveal_strlit("integer_oct_underscore_after_prefix");
    reveal_strlit("integer_oct_underscore_at_end");
    reveal_strlit("integer_signed_bin_prefix");
    reveal_strlit("integer_signed_hex_prefix");
    reveal_strlit("integer_signed_oct_prefix");
    reveal_strlit("key_value_missing_equals_char");
    reveal_strlit("key_value_missing_equals_eof");
    reveal_strlit("key_value_missing_value_eof");
    reveal_strlit("key_value_missing_value_nomatch");
    reveal_strlit("literal_string_invalid_char");
    reveal_strlit("literal_string_missing_close_eof");
    reveal_strlit("literal_string_newline");
    reveal_strlit("ml_basic_escaped_newline_missing_newline");
    reveal_strlit("ml_basic_missing_close_after_newline");
    reveal_strlit("ml_basic_missing_close_no_newline");
    reveal_strlit("ml_basic_open_eof");
    reveal_strlit("ml_basic_quotes_without_content");
    reveal_strlit("ml_literal_missing_close_after_newline");
    reveal_strlit("ml_literal_missing_close_no_newline");
    reveal_strlit("ml_literal_open_eof");
    reveal_strlit("ml_literal_quotes_without_content");
    reveal_strlit("numoffset_expect_colon_eof");
    reveal_strlit("numoffset_expect_colon_wrong_char");
    reveal_strlit("numoffset_expect_hour_after_sign");
    reveal_strlit("numoffset_expect_minute_after_colon");
    reveal_strlit("partial_time_expect_second_after_minute");
    reveal_strlit("partial_time_second_colon_without_first");
    reveal_strlit("quoted_key_multiline_basic");
    reveal_strlit("quoted_key_multiline_literal");
    reveal_strlit("std_table_duplicate");
    reveal_strlit("std_table_empty_name");
    reveal_strlit("std_table_missing_close_char");
    reveal_strlit("std_table_missing_close_eof");
    reveal_strlit("std_table_open_eof");
    reveal_strlit("std_table_redefines_array_table");
    reveal_strlit("std_table_redefines_implicit_table");
    reveal_strlit("std_table_redefines_inline_table");
    reveal_strlit("string_invalid_escape");
    reveal_strlit("string_unicode_escape_invalid_hex");
    reveal_strlit("string_unicode_escape_invalid_scalar");
    reveal_strlit("time_hour_first_char_not_digit");
    reveal_strlit("time_hour_out_of_range");
    reveal_strlit("time_hour_second_char_not_digit");
    reveal_strlit("time_minute_first_char_not_digit");
    reveal_strlit("time_minute_out_of_range");
    reveal_strlit("time_minute_second_char_not_digit");
    reveal_strlit("time_secfrac_no_digit_after_dot_eof");
    reveal_strlit("time_secfrac_no_digit_after_dot_nondigit");
    reveal_strlit("time_second_first_char_not_digit");
    reveal_strlit("time_second_out_of_range");
    reveal_strlit("time_second_second_char_not_digit");
    reveal_strlit("toml_expected_newline_between_expressions");
    reveal_strlit("toml_table_merge_type_mismatch");
}

/// The identifier of the first catalog entry at or after `from` named `name`.
pub open spec fn find_marker(name: Seq<char>, from: int) -> Option<usize>
    decreases MARKER_COUNT - from,
{
    if from < 0 || from >= MARKER_COUNT {
        None
    } else if marker_name_spec(from) == name {
        Some(from as usize)
    } else {
        find_marker(name, from + 1)
    }
}

/// The identifier of the marker named `name`, if the catalog has one.
pub open spec fn marker_id_spec(name: Seq<char>) -> Option<usize> {
    find_marker(name, 0)
}

/// Look a marker up by name.
pub fn marker_id(name: &Vec<char>) -> (r: Option<usize>)
    ensures
        r == marker_id_spec(name@),
{
    let mut i: usize = 0;
    while i < MARKER_COUNT
        invariant
            i <= MARKER_COUNT,
            find_marker(name@, 0) == find_marker(name@, i as int),
        decreases MARKER_COUNT - i,
    {
        let entry = chars_of(marker_name(i));
        if chars_eq(&entry, name) {
            return Some(i);
        }
        i = i + 1;
    }
    None
}

} // verus!

verus! {

/// The markers that fired on one run of a reference semantics, as strictly
/// increasing identifiers.
#[derive(Debug, Clone, PartialEq, Eq)]
pub struct Path {
    ids: Vec<usize>,
}

/// Strictly increasing.
pub open spec fn ascending(s: Seq<usize>) -> bool {
    forall|i: int, j: int| 0 <= i < j < s.len() ==> s[i] < s[j]
}

impl View for Path {
    type V = Seq<usize>;

    closed spec fn view(&self) -> Seq<usize> {
        self.ids@
    }
}

impl Path {
    /// A well-formed path lists its identifiers in strictly increasing order.
    pub open spec fn wf(&self) -> bool {
        ascending(self@)
    }

    /// The path on which exactly the marker `id` fired.
    pub fn named(id: usize) -> (p: Path)
        ensures
            p@ == seq![id],
            p.wf(),
    {
        let mut ids: Vec<usize> = Vec::new();
        ids.push(id);
        Path { ids }
    }

    /// The identifiers that fired, in increasing order.
    pub fn ids(&self) -> (r: &Vec<usize>)
        ensures
            r@ == self@,
    {
        &self.ids
    }

    /// Whether the marker `id` fired.
    pub fn contains(&self, id: usize) -> (r: bool)
        ensures
            r == self@.contains(id),
    {
        let mut i: usize = 0;
        while i < self.ids.len()
            invariant
                i <= self.ids.len(),
                forall|j: int| 0 <= j < i ==> self.ids@[j] != id,
            decreases self.ids.len() - i,
        {
            if self.ids[i] == id {
                return true;
            }
            i = i + 1;
        }
        false
    }
}

} // verus!

verus! {
/// Identifier of the marker `array_comment_missing_newline`.
pub const ARRAY_COMMENT_MISSING_NEWLINE: usize = 2;
/// Identifier of the marker `array_of_tables_inline_array`.
pub const ARRAY_OF_TABLES_INLINE_ARRAY: usize = 3;
/// Identifier of the marker `array_open_after_ws_eof`.
pub const ARRAY_OPEN_AFTER_WS_EOF: usize = 4;
/// Identifier of the marker `array_open_eof`.
pub const ARRAY_OPEN_EOF: usize = 5;
/// Identifier of the marker `array_sep_eof_after_comma`.
pub const ARRAY_SEP_EOF_AFTER_COMMA: usize = 6;
/// Identifier of the marker `array_table_empty_name`.
pub const ARRAY_TABLE_EMPTY_NAME: usize = 7;
/// Identifier of the marker `array_table_missing_close_char`.
pub const ARRAY_TABLE_MISSING_CLOSE_CHAR: usize = 8;
/// Identifier of the marker `array_table_missing_close_eof`.
pub const ARRAY_TABLE_MISSING_CLOSE_EOF: usize = 9;
/// Identifier of the marker `array_table_open_eof`.
pub const ARRAY_TABLE_OPEN_EOF: usize = 10;
/// Identifier of the marker `array_table_redefines_closed_table`.
pub const ARRAY_TABLE_REDEFINES_CLOSED_TABLE: usize = 11;
/// Identifier of the marker `array_table_redefines_inline_array`.
pub const ARRAY_TABLE_REDEFINES_INLINE_ARRAY: usize = 12;
/// Identifier of the marker `array_table_redefines_inline_table`.
pub const ARRAY_TABLE_REDEFINES_INLINE_TABLE: usize = 13;
/// Identifier of the marker `array_table_redefines_std_table`.
pub const ARRAY_TABLE_REDEFINES_STD_TABLE: usize = 14;
/// Identifier of the marker `array_value_eof_after_value`.
pub const ARRAY_VALUE_EOF_AFTER_VALUE: usize = 15;
/// Identifier of the marker `array_value_invalid_separator`.
pub const ARRAY_VALUE_INVALID_SEPARATOR: usize = 16;
/// Identifier of the marker `array_values_expected_value`.
pub const ARRAY_VALUES_EXPECTED_VALUE: usize = 17;
/// Identifier of the marker `bare_key_invalid_start`.
pub const BARE_KEY_INVALID_START: usize = 18;
/// Identifier of the marker `basic_string_invalid_char`.
pub const BASIC_STRING_INVALID_CHAR: usize = 19;
/// Identifier of the marker `basic_string_missing_close_eof`.
pub const BASIC_STRING_MISSING_CLOSE_EOF: usize = 20;
/// Identifier of the marker `basic_string_newline`.
pub const BASIC_STRING_NEWLINE: usize = 21;
/// Identifier of the marker `boolean_invalid`.
pub const BOOLEAN_INVALID: usize = 22;
/// Identifier of the marker `boolean_invalid_allcaps_true`.
pub const BOOLEAN_INVALID_ALLCAPS_TRUE: usize = 23;
/// Identifier of the marker `boolean_invalid_capital_false`.
pub const BOOLEAN_INVALID_CAPITAL_FALSE: usize = 24;
/// Identifier of the marker `boolean_invalid_capital_true`.
pub const BOOLEAN_INVALID_CAPITAL_TRUE: usize = 25;
/// Identifier of the marker `comment_invalid_char`.
pub const COMMENT_INVALID_CHAR: usize = 26;
/// Identifier of the marker `date_invalid_day`.
pub const DATE_INVALID_DAY: usize = 27;
/// Identifier of the marker `date_invalid_month`.
pub const DATE_INVALID_MONTH: usize = 28;
/// Identifier of the marker `date_mday_first_char_not_digit`.
pub const DATE_MDAY_FIRST_CHAR_NOT_DIGIT: usize = 29;
/// Identifier of the marker `date_mday_second_char_not_digit`.
pub const DATE_MDAY_SECOND_CHAR_NOT_DIGIT: usize = 30;
/// Identifier of the marker `date_month_first_char_not_digit`.
pub const DATE_MONTH_FIRST_CHAR_NOT_DIGIT: usize = 31;
/// Identifier of the marker `date_month_second_char_not_digit`.
pub const DATE_MONTH_SECOND_CHAR_NOT_DIGIT: usize = 32;
/// Identifier of the marker `date_year_first_char_not_digit`.
pub const DATE_YEAR_FIRST_CHAR_NOT_DIGIT: usize = 33;
/// Identifier of the marker `date_year_fourth_char_not_digit`.
pub const DATE_YEAR_FOURTH_CHAR_NOT_DIGIT: usize = 34;
/// Identifier of the marker `date_year_second_char_not_digit`.
pub const DATE_YEAR_SECOND_CHAR_NOT_DIGIT: usize = 35;
/// Identifier of the marker `date_year_third_char_not_digit`.
pub const DATE_YEAR_THIRD_CHAR_NOT_DIGIT: usize = 36;
/// Identifier of the marker `datetime_expect_partial_time_after_delim`.
pub const DATETIME_EXPECT_PARTIAL_TIME_AFTER_DELIM: usize = 37;
/// Identifier of the marker `dotted_key_missing_segment`.
pub const DOTTED_KEY_MISSING_SEGMENT: usize = 38;
/// Identifier of the marker `dotted_key_redefines_array_table`.
pub const DOTTED_KEY_REDEFINES_ARRAY_TABLE: usize = 39;
/// Identifier of the marker `dotted_key_redefines_inline_table`.
pub const DOTTED_KEY_REDEFINES_INLINE_TABLE: usize = 40;
/// Identifier of the marker `dotted_key_redefines_std_table`.
pub const DOTTED_KEY_REDEFINES_STD_TABLE: usize = 41;
/// Identifier of the marker `float_duplicate_exponent`.
pub const FLOAT_DUPLICATE_EXPONENT: usize = 42;
/// Identifier of the marker `float_exp_no_digit_after_e`.
pub const FLOAT_EXP_NO_DIGIT_AFTER_E: usize = 43;
/// Identifier of the marker `float_exp_only_exp_overflow_i32`.
pub const FLOAT_EXP_ONLY_EXP_OVERFLOW_I32: usize = 44;
/// Identifier of the marker `float_exp_only_exp_underflow_i32`.
pub const FLOAT_EXP_ONLY_EXP_UNDERFLOW_I32: usize = 45;
/// Identifier of the marker `float_exp_only_final_overflow`.
pub const FLOAT_EXP_ONLY_FINAL_OVERFLOW: usize = 46;
/// Identifier of the marker `float_exp_only_pow10_overflow`.
pub const FLOAT_EXP_ONLY_POW10_OVERFLOW: usize = 47;
/// Identifier of the marker `float_frac_combined_overflow`.
pub const FLOAT_FRAC_COMBINED_OVERFLOW: usize = 48;
/// Identifier of the marker `float_frac_eof_combined_overflow`.
pub const FLOAT_FRAC_EOF_COMBINED_OVERFLOW: usize = 49;
/// Identifier of the marker `float_frac_exp_overflow_i32`.
pub const FLOAT_FRAC_EXP_OVERFLOW_I32: usize = 50;
/// Identifier of the marker `float_frac_exp_underflow_i32`.
pub const FLOAT_FRAC_EXP_UNDERFLOW_I32: usize = 51;
/// Identifier of the marker `float_frac_final_overflow`.
pub const FLOAT_FRAC_FINAL_OVERFLOW: usize = 52;
/// Identifier of the marker `float_frac_noexp_combined_overflow`.
pub const FLOAT_FRAC_NOEXP_COMBINED_OVERFLOW: usize = 53;
/// Identifier of the marker `float_frac_pow10_overflow`.
pub const FLOAT_FRAC_POW10_OVERFLOW: usize = 54;
/// Identifier of the marker `float_hex_char_after_underscore`.
pub const FLOAT_HEX_CHAR_AFTER_UNDERSCORE: usize = 55;
/// Identifier of the marker `float_hex_char_in_part`.
pub const FLOAT_HEX_CHAR_IN_PART: usize = 56;
/// Identifier of the marker `float_invalid_char_after_underscore`.
pub const FLOAT_INVALID_CHAR_AFTER_UNDERSCORE: usize = 57;
/// Identifier of the marker `float_invalid_inf_casing_allcaps`.
pub const FLOAT_INVALID_INF_CASING_ALLCAPS: usize = 58;
/// Identifier of the marker `float_invalid_inf_casing_titlecase`.
pub const FLOAT_INVALID_INF_CASING_TITLECASE: usize = 59;
/// Identifier of the marker `float_invalid_nan_casing_allcaps`.
pub const FLOAT_INVALID_NAN_CASING_ALLCAPS: usize = 60;
/// Identifier of the marker `float_invalid_nan_casing_camelcase`.
pub const FLOAT_INVALID_NAN_CASING_CAMELCASE: usize = 61;
/// Identifier of the marker `float_invalid_nan_casing_titlecase`.
pub const FLOAT_INVALID_NAN_CASING_TITLECASE: usize = 62;
/// Identifier of the marker `float_multiple_underscores`.
pub const FLOAT_MULTIPLE_UNDERSCORES: usize = 63;
/// Identifier of the marker `float_no_digit_after_dot`.
pub const FLOAT_NO_DIGIT_AFTER_DOT: usize = 64;
/// Identifier of the marker `float_no_digit_after_dot_eof`.
pub const FLOAT_NO_DIGIT_AFTER_DOT_EOF: usize = 65;
/// Identifier of the marker `float_underscore_at_end`.
pub const FLOAT_UNDERSCORE_AT_END: usize = 66;
/// Identifier of the marker `full_date_expect_mday_after_month`.
pub const FULL_DATE_EXPECT_MDAY_AFTER_MONTH: usize = 67;
/// Identifier of the marker `full_date_first_dash_without_second`.
pub const FULL_DATE_FIRST_DASH_WITHOUT_SECOND: usize = 68;
/// Identifier of the marker `full_date_first_dash_wrong_char`.
pub const FULL_DATE_FIRST_DASH_WRONG_CHAR: usize = 69;
/// Identifier of the marker `full_date_second_dash_wrong_char`.
pub const FULL_DATE_SECOND_DASH_WRONG_CHAR: usize = 70;
/// Identifier of the marker `inline_table_conflicting_keys`.
pub const INLINE_TABLE_CONFLICTING_KEYS: usize = 71;
/// Identifier of the marker `inline_table_open_eof`.
pub const INLINE_TABLE_OPEN_EOF: usize = 72;
/// Identifier of the marker `inline_table_redefined_closed`.
pub const INLINE_TABLE_REDEFINED_CLOSED: usize = 73;
/// Identifier of the marker `inline_table_redefined_explicit`.
pub const INLINE_TABLE_REDEFINED_EXPLICIT: usize = 74;
/// Identifier of the marker `inline_table_redefined_inline`.
pub const INLINE_TABLE_REDEFINED_INLINE: usize = 75;
/// Identifier of the marker `inline_table_sep_eof`.
pub const INLINE_TABLE_SEP_EOF: usize = 76;
/// Identifier of the marker `inline_table_sep_expected_comma`.
pub const INLINE_TABLE_SEP_EXPECTED_COMMA: usize = 77;
/// Identifier of the marker `inline_table_unterminated`.
pub const INLINE_TABLE_UNTERMINATED: usize = 78;
/// Identifier of the marker `integer_bin_dec_digit_after_prefix`.
pub const INTEGER_BIN_DEC_DIGIT_AFTER_PREFIX: usize = 79;
/// Identifier of the marker `integer_bin_dec_digit_after_underscore`.
pub const INTEGER_BIN_DEC_DIGIT_AFTER_UNDERSCORE: usize = 80;
/// Identifier of the marker `integer_bin_dec_digit_in_body`.
pub const INTEGER_BIN_DEC_DIGIT_IN_BODY: usize = 81;
/// Identifier of the marker `integer_bin_double_underscore`.
pub const INTEGER_BIN_DOUBLE_UNDERSCORE: usize = 82;
/// Identifier of the marker `integer_bin_hex_digit_after_prefix`.
pub const INTEGER_BIN_HEX_DIGIT_AFTER_PREFIX: usize = 83;
/// Identifier of the marker `integer_bin_hex_digit_after_underscore`.
pub const INTEGER_BIN_HEX_DIGIT_AFTER_UNDERSCORE: usize = 84;
/// Identifier of the marker `integer_bin_hex_digit_in_body`.
pub const INTEGER_BIN_HEX_DIGIT_IN_BODY: usize = 85;
/// Identifier of the marker `integer_bin_invalid_char_after_prefix`.
pub const INTEGER_BIN_INVALID_CHAR_AFTER_PREFIX: usize = 86;
/// Identifier of the marker `integer_bin_invalid_char_after_underscore`.
pub const INTEGER_BIN_INVALID_CHAR_AFTER_UNDERSCORE: usize = 87;
/// Identifier of the marker `integer_bin_no_digits_after_prefix`.
pub const INTEGER_BIN_NO_DIGITS_AFTER_PREFIX: usize = 88;
/// Identifier of the marker `integer_bin_oct_digit_after_prefix`.
pub const INTEGER_BIN_OCT_DIGIT_AFTER_PREFIX: usize = 89;
/// Identifier of the marker `integer_bin_oct_digit_after_underscore`.
pub const INTEGER_BIN_OCT_DIGIT_AFTER_UNDERSCORE: usize = 90;
/// Identifier of the marker `integer_bin_oct_digit_in_body`.
pub const INTEGER_BIN_OCT_DIGIT_IN_BODY: usize = 91;
/// Identifier of the marker `integer_bin_overflow`.
pub const INTEGER_BIN_OVERFLOW: usize = 92;
/// Identifier of the marker `integer_bin_prefix_uppercase`.
pub const INTEGER_BIN_PREFIX_UPPERCASE: usize = 93;
/// Identifier of the marker `integer_bin_underscore_after_prefix`.
pub const INTEGER_BIN_UNDERSCORE_AFTER_PREFIX: usize = 94;
/// Identifier of the marker `integer_bin_underscore_at_end`.
pub const INTEGER_BIN_UNDERSCORE_AT_END: usize = 95;
/// Identifier of the marker `integer_dec_double_underscore`.
pub const INTEGER_DEC_DOUBLE_UNDERSCORE: usize = 96;
/// Identifier of the marker `integer_dec_hex_char_after_underscore`.
pub const INTEGER_DEC_HEX_CHAR_AFTER_UNDERSCORE: usize = 97;
/// Identifier of the marker `integer_dec_hex_char_in_body`.
pub const INTEGER_DEC_HEX_CHAR_IN_BODY: usize = 98;
/// Identifier of the marker `integer_dec_invalid_char_after_underscore`.
pub const INTEGER_DEC_INVALID_CHAR_AFTER_UNDERSCORE: usize = 99;
/// Identifier of the marker `integer_dec_invalid_char_after_zero`.
pub const INTEGER_DEC_INVALID_CHAR_AFTER_ZERO: usize = 100;
/// Identifier of the marker `integer_dec_leading_zero_digit`.
pub const INTEGER_DEC_LEADING_ZERO_DIGIT: usize = 101;
/// Identifier of the marker `integer_dec_leading_zero_underscore`.
pub const INTEGER_DEC_LEADING_ZERO_UNDERSCORE: usize = 102;
/// Identifier of the marker `integer_dec_minus_sign_no_digits_eof`.
pub const INTEGER_DEC_MINUS_SIGN_NO_DIGITS_EOF: usize = 103;
/// Identifier of the marker `integer_dec_minus_sign_no_digits_other`.
pub const INTEGER_DEC_MINUS_SIGN_NO_DIGITS_OTHER: usize = 104;
/// Identifier of the marker `integer_dec_overflow_plus_sign`.
pub const INTEGER_DEC_OVERFLOW_PLUS_SIGN: usize = 105;
/// Identifier of the marker `integer_dec_overflow_unsigned`.
pub const INTEGER_DEC_OVERFLOW_UNSIGNED: usize = 106;
/// Identifier of the marker `integer_dec_plus_sign_no_digits_eof`.
pub const INTEGER_DEC_PLUS_SIGN_NO_DIGITS_EOF: usize = 107;
/// Identifier of the marker `integer_dec_plus_sign_no_digits_other`.
pub const INTEGER_DEC_PLUS_SIGN_NO_DIGITS_OTHER: usize = 108;
/// Identifier of the marker `integer_dec_underflow_minus_sign`.
pub const INTEGER_DEC_UNDERFLOW_MINUS_SIGN: usize = 109;
/// Identifier of the marker `integer_dec_underscore_at_end`.
pub const INTEGER_DEC_UNDERSCORE_AT_END: usize = 110;
/// Identifier of the marker `integer_hex_double_underscore`.
pub const INTEGER_HEX_DOUBLE_UNDERSCORE: usize = 111;
/// Identifier of the marker `integer_hex_invalid_char_after_prefix`.
pub const INTEGER_HEX_INVALID_CHAR_AFTER_PREFIX: usize = 112;
/// Identifier of the marker `integer_hex_invalid_char_after_underscore`.
pub const INTEGER_HEX_INVALID_CHAR_AFTER_UNDERSCORE: usize = 113;
/// Identifier of the marker `integer_hex_no_digits_after_prefix`.
pub const INTEGER_HEX_NO_DIGITS_AFTER_PREFIX: usize = 114;
/// Identifier of the marker `integer_hex_overflow`.
pub const INTEGER_HEX_OVERFLOW: usize = 115;
/// Identifier of the marker `integer_hex_prefix_uppercase`.
pub const INTEGER_HEX_PREFIX_UPPERCASE: usize = 116;
/// Identifier of the marker `integer_hex_underscore_after_prefix`.
pub const INTEGER_HEX_UNDERSCORE_AFTER_PREFIX: usize = 117;
/// Identifier of the marker `integer_hex_underscore_at_end`.
pub const INTEGER_HEX_UNDERSCORE_AT_END: usize = 118;
/// Identifier of the marker `integer_oct_dec_digit_after_prefix`.
pub const INTEGER_OCT_DEC_DIGIT_AFTER_PREFIX: usize = 119;
/// Identifier of the marker `integer_oct_dec_digit_after_underscore`.
pub const INTEGER_OCT_DEC_DIGIT_AFTER_UNDERSCORE: usize = 120;
/// Identifier of the marker `integer_oct_dec_digit_in_body`.
pub const INTEGER_OCT_DEC_DIGIT_IN_BODY: usize = 121;
/// Identifier of the marker `integer_oct_double_underscore`.
pub const INTEGER_OCT_DOUBLE_UNDERSCORE: usize = 122;
/// Identifier of the marker `integer_oct_hex_digit_after_prefix`.
pub const INTEGER_OCT_HEX_DIGIT_AFTER_PREFIX: usize = 123;
/// Identifier of the marker `integer_oct_hex_digit_after_underscore`.
pub const INTEGER_OCT_HEX_DIGIT_AFTER_UNDERSCORE: usize = 124;
/// Identifier of the marker `integer_oct_hex_digit_in_body`.
pub const INTEGER_OCT_HEX_DIGIT_IN_BODY: usize = 125;
/// Identifier of the marker `integer_oct_invalid_char_after_prefix`.
pub const INTEGER_OCT_INVALID_CHAR_AFTER_PREFIX: usize = 126;
/// Identifier of the marker `integer_oct_invalid_char_after_underscore`.
pub const INTEGER_OCT_INVALID_CHAR_AFTER_UNDERSCORE: usize = 127;
/// Identifier of the marker `integer_oct_no_digits_after_prefix`.
pub const INTEGER_OCT_NO_DIGITS_AFTER_PREFIX: usize = 128;
/// Identifier of the marker `integer_oct_overflow`.
pub const INTEGER_OCT_OVERFLOW: usize = 129;
/// Identifier of the marker `integer_oct_prefix_uppercase`.
pub const INTEGER_OCT_PREFIX_UPPERCASE: usize = 130;
/// Identifier of the marker `integer_oct_underscore_after_prefix`.
pub const INTEGER_OCT_UNDERSCORE_AFTER_PREFIX: usize = 131;
/// Identifier of the marker `integer_oct_underscore_at_end`.
pub const INTEGER_OCT_UNDERSCORE_AT_END: usize = 132;
/// Identifier of the marker `integer_signed_bin_prefix`.
pub const INTEGER_SIGNED_BIN_PREFIX: usize = 133;
/// Identifier of the marker `integer_signed_hex_prefix`.
pub const INTEGER_SIGNED_HEX_PREFIX: usize = 134;
/// Identifier of the marker `integer_signed_oct_prefix`.
pub const INTEGER_SIGNED_OCT_PREFIX: usize = 135;
/// Identifier of the marker `key_value_missing_equals_char`.
pub const KEY_VALUE_MISSING_EQUALS_CHAR: usize = 136;
/// Identifier of the marker `key_value_missing_equals_eof`.
pub const KEY_VALUE_MISSING_EQUALS_EOF: usize = 137;
/// Identifier of the marker `key_value_missing_value_eof`.
pub const KEY_VALUE_MISSING_VALUE_EOF: usize = 138;
/// Identifier of the marker `key_value_missing_value_nomatch`.
pub const KEY_VALUE_MISSING_VALUE_NOMATCH: usize = 139;
/// Identifier of the marker `literal_string_invalid_char`.
pub const LITERAL_STRING_INVALID_CHAR: usize = 140;
/// Identifier of the marker `literal_string_missing_close_eof`.
pub const LITERAL_STRING_MISSING_CLOSE_EOF: usize = 141;
/// Identifier of the marker `literal_string_newline`.
pub const LITERAL_STRING_NEWLINE: usize = 142;
/// Identifier of the marker `ml_basic_escaped_newline_missing_newline`.
pub const ML_BASIC_ESCAPED_NEWLINE_MISSING_NEWLINE: usize = 143;
/// Identifier of the marker `ml_basic_missing_close_after_newline`.
pub const ML_BASIC_MISSING_CLOSE_AFTER_NEWLINE: usize = 144;
/// Identifier of the marker `ml_basic_missing_close_no_newline`.
pub const ML_BASIC_MISSING_CLOSE_NO_NEWLINE: usize = 145;
/// Identifier of the marker `ml_basic_open_eof`.
pub const ML_BASIC_OPEN_EOF: usize = 146;
/// Identifier of the marker `ml_basic_quotes_without_content`.
pub const ML_BASIC_QUOTES_WITHOUT_CONTENT: usize = 147;
/// Identifier of the marker `ml_literal_missing_close_after_newline`.
pub const ML_LITERAL_MISSING_CLOSE_AFTER_NEWLINE: usize = 148;
/// Identifier of the marker `ml_literal_missing_close_no_newline`.
pub const ML_LITERAL_MISSING_CLOSE_NO_NEWLINE: usize = 149;
/// Identifier of the marker `ml_literal_open_eof`.
pub const ML_LITERAL_OPEN_EOF: usize = 150;
/// Identifier of the marker `ml_literal_quotes_without_content`.
pub const ML_LITERAL_QUOTES_WITHOUT_CONTENT: usize = 151;
/// Identifier of the marker `numoffset_expect_colon_eof`.
pub const NUMOFFSET_EXPECT_COLON_EOF: usize = 152;
/// Identifier of the marker `numoffset_expect_colon_wrong_char`.
pub const NUMOFFSET_EXPECT_COLON_WRONG_CHAR: usize = 153;
/// Identifier of the marker `numoffset_expect_hour_after_sign`.
pub const NUMOFFSET_EXPECT_HOUR_AFTER_SIGN: usize = 154;
/// Identifier of the marker `numoffset_expect_minute_after_colon`.
pub const NUMOFFSET_EXPECT_MINUTE_AFTER_COLON: usize = 155;
/// Identifier of the marker `partial_time_expect_second_after_minute`.
pub const PARTIAL_TIME_EXPECT_SECOND_AFTER_MINUTE: usize = 156;
/// Identifier of the marker `partial_time_second_colon_without_first`.
pub const PARTIAL_TIME_SECOND_COLON_WITHOUT_FIRST: usize = 157;
/// Identifier of the marker `quoted_key_multiline_basic`.
pub const QUOTED_KEY_MULTILINE_BASIC: usize = 158;
/// Identifier of the marker `quoted_key_multiline_literal`.
pub const QUOTED_KEY_MULTILINE_LITERAL: usize = 159;
/// Identifier of the marker `std_table_duplicate`.
pub const STD_TABLE_DUPLICATE: usize = 160;
/// Identifier of the marker `std_table_empty_name`.
pub const STD_TABLE_EMPTY_NAME: usize = 161;
/// Identifier of the marker `std_table_missing_close_char`.
pub const STD_TABLE_MISSING_CLOSE_CHAR: usize = 162;
/// Identifier of the marker `std_table_missing_close_eof`.
pub const STD_TABLE_MISSING_CLOSE_EOF: usize = 163;
/// Identifier of the marker `std_table_open_eof`.
pub const STD_TABLE_OPEN_EOF: usize = 164;
/// Identifier of the marker `std_table_redefines_array_table`.
pub const STD_TABLE_REDEFINES_ARRAY_TABLE: usize = 165;
/// Identifier of the marker `std_table_redefines_implicit_table`.
pub const STD_TABLE_REDEFINES_IMPLICIT_TABLE: usize = 166;
/// Identifier of the marker `std_table_redefines_inline_table`.
pub const STD_TABLE_REDEFINES_INLINE_TABLE: usize = 167;
/// Identifier of the marker `string_invalid_escape`.
pub const STRING_INVALID_ESCAPE: usize = 168;
/// Identifier of the marker `string_unicode_escape_invalid_hex`.
pub const STRING_UNICODE_ESCAPE_INVALID_HEX: usize = 169;
/// Identifier of the marker `string_unicode_escape_invalid_scalar`.
pub const STRING_UNICODE_ESCAPE_INVALID_SCALAR: usize = 170;
/// Identifier of the marker `time_hour_first_char_not_digit`.
pub const TIME_HOUR_FIRST_CHAR_NOT_DIGIT: usize = 171;
/// Identifier of the marker `time_hour_out_of_range`.
pub const TIME_HOUR_OUT_OF_RANGE: usize = 172;
/// Identifier of the marker `time_hour_second_char_not_digit`.
pub const TIME_HOUR_SECOND_CHAR_NOT_DIGIT: usize = 173;
/// Identifier of the marker `time_minute_first_char_not_digit`.
pub const TIME_MINUTE_FIRST_CHAR_NOT_DIGIT: usize = 174;
/// Identifier of the marker `time_minute_out_of_range`.
pub const TIME_MINUTE_OUT_OF_RANGE: usize = 175;
/// Identifier of the marker `time_minute_second_char_not_digit`.
pub const TIME_MINUTE_SECOND_CHAR_NOT_DIGIT: usize = 176;
/// Identifier of the marker `time_secfrac_no_digit_after_dot_eof`.
pub const TIME_SECFRAC_NO_DIGIT_AFTER_DOT_EOF: usize = 177;
/// Identifier of the marker `time_secfrac_no_digit_after_dot_nondigit`.
pub const TIME_SECFRAC_NO_DIGIT_AFTER_DOT_NONDIGIT: usize = 178;
/// Identifier of the marker `time_second_first_char_not_digit`.
pub const TIME_SECOND_FIRST_CHAR_NOT_DIGIT: usize = 179;
/// Identifier of the marker `time_second_out_of_range`.
pub const TIME_SECOND_OUT_OF_RANGE: usize = 180;
/// Identifier of the marker `time_second_second_char_not_digit`.
pub const TIME_SECOND_SECOND_CHAR_NOT_DIGIT: usize = 181;
/// Identifier of the marker `toml_expected_newline_between_expressions`.
pub const TOML_EXPECTED_NEWLINE_BETWEEN_EXPRESSIONS: usize = 182;
/// Identifier of the marker `toml_table_merge_type_mismatch`.
pub const TOML_TABLE_MERGE_TYPE_MISMATCH: usize = 183;

} // verus!
