//! Tests for project-name validation.

use supra::config::{valid_char, valid_name};

#[test]
fn all_valid() {
        let input = "test";
        assert!(valid_name(input));
    }

#[test]
fn not_valid() {
        let input = "test ";
        assert!(!valid_name(input));
    }

#[test]
fn good_chars() {
        let good_chars = [
            'a', 'b', 'c', 'd', 'e', 'f', 'g', 'h', 'i', 'j', 'k', 'l', 'm', 'n', 'o', 'p', 'q',
            'r', 's', 't', 'u', 'v', 'w', 'x', 'y', 'z', '1', '2', '3', '4', '5', '6', '7', '8',
            '9', '0', '(', ')', '.',
        ];
        for c in good_chars {
            assert!(valid_char(&c));
        }
    }

#[test]
fn bad_chars() {
        let bad_chars = [
            ' ', '#', '%', '&', '{', '}', '\\', '<', '>', '*', '?', '/', '$', '!', '\'', '"', ':',
            '@', '+', '`', '|', '=',
        ];
        for c in bad_chars {
            assert!(!valid_char(&c));
        }
    }
