//! Extension methods for strings: whitespace removal, case conversion,
//! case classification, and first-character selection.

use vstd::prelude::*;
use crate::text::{
    alphabetic, camel_case_of, camel_case_rule, camel_join_exec, chars_of, first_of,
    is_alphabetic_char, is_whitespace_char, lemma_words_wf, pascal_case_of, pascal_case_rule,
    pascal_join_exec, push_char, remove_ws_spec, seqs_of, snake_case_of, snake_case_rule,
    snake_join_exec, split_words, to_lowercase_str, to_uppercase_str,
};

verus! {

/// Producing a copy of a string with every whitespace character removed.
pub trait RemoveWhitespaces: View<V = Seq<char>> {
    /// Returns a new string holding every non-whitespace character of
    /// this one, in original order.
    fn remove_whitespaces(&self) -> (r: String)
        ensures
            r@ == remove_ws_spec(self@),
    ;
}

impl RemoveWhitespaces for String {
    fn remove_whitespaces(&self) -> (r: String) {
        let cv = chars_of(self.as_str());
        let mut r = String::new();
        let mut i: usize = 0;
        proof {
            assert(cv@.take(0) =~= Seq::<char>::empty());
        }
        while i < cv.len()
            invariant
                i <= cv@.len(),
                r@ == remove_ws_spec(cv@.take(i as int)),
            decreases cv@.len() - i,
        {
            let c = cv[i];
            if !is_whitespace_char(c) {
                push_char(&mut r, c);
            }
            proof {
                assert(cv@.take(i + 1).drop_last() =~= cv@.take(i as int));
                assert(cv@.take(i + 1).last() == cv@[i as int]);
            }
            i = i + 1;
        }
        proof {
            assert(cv@.take(cv@.len() as int) =~= cv@);
        }
        r
    }
}

/// Converting a whitespace-tokenized string to a cased form.
pub trait ToCases: View<V = Seq<char>> {
    /// Returns the words of this string joined in `PascalCase`: each
    /// word's first character uppercased, the rest untouched.
    fn to_pascal_case(&self) -> (r: String)
        ensures
            r@ == pascal_case_of(self@),
    ;

    /// Returns the words of this string joined in `snake_case`: the words
    /// unchanged, with a single underscore between each pair.
    fn to_snake_case(&self) -> (r: String)
        ensures
            r@ == snake_case_of(self@),
    ;

    /// Returns the words of this string joined in `camelCase`: the first
    /// word lowercased in full, each later word with its first character
    /// uppercased and the rest untouched.
    fn to_camel_case(&self) -> (r: String)
        ensures
            r@ == camel_case_of(self@),
    ;
}

impl ToCases for String {
    fn to_pascal_case(&self) -> (r: String) {
        let cv = chars_of(self.as_str());
        let ws = split_words(&cv);
        proof {
            lemma_words_wf(cv@);
            assert forall|k: int| 0 <= k < ws@.len() implies (#[trigger] ws@[k])@.len() > 0 by {
                assert(seqs_of(ws@)[k] == ws@[k]@);
            }
        }
        pascal_join_exec(&ws)
    }

    fn to_snake_case(&self) -> (r: String) {
        let cv = chars_of(self.as_str());
        let ws = split_words(&cv);
        snake_join_exec(&ws)
    }

    fn to_camel_case(&self) -> (r: String) {
        let cv = chars_of(self.as_str());
        let ws = split_words(&cv);
        proof {
            lemma_words_wf(cv@);
            assert forall|k: int| 0 <= k < ws@.len() implies (#[trigger] ws@[k])@.len() > 0 by {
                assert(seqs_of(ws@)[k] == ws@[k]@);
            }
        }
        camel_join_exec(&ws)
    }
}

/// Classifying a string against a casing rule.
pub trait IsCases: View<V = Seq<char>> {
    /// Whether the string is in `camelCase`: not equal to its own
    /// lowercasing, a first character that is not uppercase, and every
    /// character alphabetic.
    fn is_camel_case(&self) -> (r: bool)
        ensures
            r == camel_case_rule(self@),
    ;

    /// Whether the string is in `PascalCase`: not equal to its own
    /// lowercasing, a first character that is uppercase, and every
    /// character alphabetic.
    fn is_pascal_case(&self) -> (r: bool)
        ensures
            r == pascal_case_rule(self@),
    ;

    /// Whether the string is in `snake_case`: equal to its own
    /// lowercasing, holding at least one underscore, and every character
    /// alphabetic or an underscore.
    fn is_snake_case(&self) -> (r: bool)
        ensures
            r == snake_case_rule(self@),
    ;
}

impl IsCases for String {
    fn is_camel_case(&self) -> (r: bool) {
        let low = to_lowercase_str(self.as_str());
        if *self == low {
            return false;
        }
        let f = self.first();
        let fu = to_uppercase_str(f.as_str());
        if f == fu {
            return false;
        }
        let cv = chars_of(self.as_str());
        let mut i: usize = 0;
        while i < cv.len()
            invariant
                i <= cv@.len(),
                cv@ == self@,
                forall|j: int| 0 <= j < i ==> alphabetic(cv@[j]),
            decreases cv@.len() - i,
        {
            if !is_alphabetic_char(cv[i]) {
                return false;
            }
            i = i + 1;
        }
        true
    }

    fn is_pascal_case(&self) -> (r: bool) {
        let low = to_lowercase_str(self.as_str());
        if *self == low {
            return false;
        }
        let f = self.first();
        let fu = to_uppercase_str(f.as_str());
        if f == fu {
            let cv = chars_of(self.as_str());
            let mut i: usize = 0;
            while i < cv.len()
                invariant
                    i <= cv@.len(),
                    cv@ == self@,
                    forall|j: int| 0 <= j < i ==> alphabetic(cv@[j]),
                decreases cv@.len() - i,
            {
                if !is_alphabetic_char(cv[i]) {
                    return false;
                }
                i = i + 1;
            }
            true
        } else {
            false
        }
    }

    fn is_snake_case(&self) -> (r: bool) {
        let low = to_lowercase_str(self.as_str());
        if !(*self == low) {
            return false;
        }
        let cv = chars_of(self.as_str());
        let mut has_underscore = false;
        let mut i: usize = 0;
        while i < cv.len()
            invariant
                i <= cv@.len(),
                cv@ == self@,
                has_underscore <==> exists|j: int| 0 <= j < i && cv@[j] == '_',
                forall|j: int| 0 <= j < i ==> alphabetic(cv@[j]) || cv@[j] == '_',
            decreases cv@.len() - i,
        {
            let c = cv[i];
            if c == '_' {
                has_underscore = true;
            } else if !is_alphabetic_char(c) {
                return false;
            }
            i = i + 1;
        }
        has_underscore
    }
}

/// Selecting a single character of a string as a new string.
pub trait SelectNth: View<V = Seq<char>> {
    /// Returns a string holding the first character of this one, or the
    /// empty string when this one is empty.
    fn first(&self) -> (r: String)
        ensures
            r@ == first_of(self@),
    ;
}

impl SelectNth for String {
    fn first(&self) -> (r: String) {
        self.as_str().first()
    }
}

impl SelectNth for str {
    fn first(&self) -> (r: String) {
        if self.unicode_len() == 0 {
            String::new()
        } else {
            let c = self.get_char(0);
            let mut r = String::new();
            push_char(&mut r, c);
            proof {
                assert(Seq::<char>::empty().push(self@[0]) =~= first_of(self@));
            }
            r
        }
    }
}

} // verus!
