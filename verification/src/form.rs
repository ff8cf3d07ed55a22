//! The form a run is started from, and the rule that decides whether a run
//! may start.

use crate::alphabet::{build_character_set, character_set, CharClasses};
use crate::decimal::{decimal_digits, decimal_string, parse_usize, parsed};
use vstd::prelude::*;

verus! {

/// Everything one run needs, fixed at the moment it is started.
#[derive(Debug)]
pub struct GenerationRequest {
    /// The alphabet the tokens are drawn from; not empty.
    pub character_set: String,
    /// Where the document goes.
    pub file_path: String,
    /// How many tokens to generate; not zero.
    pub token_count: usize,
    /// How many characters each token has; not zero.
    pub token_length: usize,
}

impl GenerationRequest {
    /// What holds of every request that is handed out: the alphabet is not
    /// empty, and neither the count nor the length is zero.
    pub open spec fn valid(&self) -> bool {
        &&& self.character_set@.len() > 0
        &&& self.token_count != 0
        &&& self.token_length != 0
    }
}

/// The state of the form: what the user has entered, and whether a run is
/// under way.
#[derive(Debug)]
pub struct RandomizerApp {
    pub capital_letters: bool,
    pub lowercase_letters: bool,
    pub numbers: bool,
    pub specials: bool,
    /// The characters that are kept out of the alphabet.
    pub rejected_chars: String,
    pub ticket_count: usize,
    /// The text of the count field, while the user edits it.
    pub ticket_count_str: String,
    pub ticket_length: usize,
    /// The text of the length field, while the user edits it.
    pub ticket_length_str: String,
    /// The destination, once the user has chosen one.
    pub file_path: Option<String>,
    /// Whether a run is under way.
    pub is_processing: bool,
    /// What the last run reported when it ended.
    pub last_thread_message: String,
}

impl Default for RandomizerApp {
    fn default() -> (form: RandomizerApp)
        ensures
            !form.capital_letters && !form.lowercase_letters && !form.numbers && !form.specials,
            form.rejected_chars@.len() == 0,
            form.ticket_count == 0 && form.ticket_count_str@.len() == 0,
            form.ticket_length == 0 && form.ticket_length_str@.len() == 0,
            form.file_path is None,
            !form.is_processing,
            form.last_thread_message@.len() == 0,
    {
        RandomizerApp {
            capital_letters: false,
            lowercase_letters: false,
            numbers: false,
            specials: false,
            rejected_chars: String::new(),
            ticket_count: 0,
            ticket_count_str: String::new(),
            ticket_length: 0,
            ticket_length_str: String::new(),
            file_path: None,
            is_processing: false,
            last_thread_message: String::new(),
        }
    }
}

impl RandomizerApp {
    /// The classes that are ticked.
    pub open spec fn spec_classes(&self) -> CharClasses {
        CharClasses {
            capitals: self.capital_letters,
            lowercase: self.lowercase_letters,
            digits: self.numbers,
            specials: self.specials,
        }
    }

    /// The alphabet that the form describes.
    pub open spec fn spec_character_set(&self) -> Seq<char> {
        character_set(self.spec_classes(), self.rejected_chars@)
    }

    /// Whether a run may start: none is under way, a destination is chosen,
    /// the alphabet is not empty, and neither the length nor the count is
    /// zero.
    pub open spec fn can_start(&self) -> bool {
        &&& !self.is_processing
        &&& self.file_path is Some
        &&& self.spec_character_set().len() > 0
        &&& self.ticket_length != 0
        &&& self.ticket_count != 0
    }

    /// The classes that are ticked.
    pub fn classes(&self) -> (classes: CharClasses)
        ensures
            classes == self.spec_classes(),
    {
        CharClasses {
            capitals: self.capital_letters,
            lowercase: self.lowercase_letters,
            digits: self.numbers,
            specials: self.specials,
        }
    }

    /// The alphabet that the form describes.
    pub fn build_character_set(&self) -> (alphabet: String)
        ensures
            alphabet@ == self.spec_character_set(),
    {
        build_character_set(self.classes(), self.rejected_chars.as_str())
    }

    /// Starts a run if one may start, and hands out its request.
    ///
    /// Where none may start nothing changes and nothing is reported.
    pub fn start_processing(&mut self) -> (request: Option<GenerationRequest>)
        ensures
            request is Some <==> old(self).can_start(),
            match request {
                Some(r) => {
                    &&& r.valid()
                    &&& r.character_set@ == old(self).spec_character_set()
                    &&& Some(r.file_path) == old(self).file_path
                    &&& r.token_count == old(self).ticket_count
                    &&& r.token_length == old(self).ticket_length
                    &&& *final(self) == (RandomizerApp { is_processing: true, ..*old(self) })
                },
                None => *final(self) == *old(self),
            },
    {
        if self.is_processing {
            return None;
        }
        let file_path = match &self.file_path {
            Some(path) => path.clone(),
            None => {
                return None;
            },
        };
        let character_set = self.build_character_set();
        if character_set.as_str().is_empty() {
            return None;
        }
        if self.ticket_length == 0 || self.ticket_count == 0 {
            return None;
        }
        self.is_processing = true;
        Some(
            GenerationRequest {
                character_set,
                file_path,
                token_count: self.ticket_count,
                token_length: self.ticket_length,
            },
        )
    }

    /// Takes the report of the run that has ended: the form shows it and is
    /// free for the next run.
    pub fn finish_processing(&mut self, message: String)
        ensures
            *final(self) == (RandomizerApp {
                last_thread_message: message,
                is_processing: false,
                ..*old(self)
            }),
    {
        self.last_thread_message = message;
        self.is_processing = false;
    }

    /// Takes over what the user has typed into the count field: the count it
    /// stands for, or, where it stands for none, the field goes back to the
    /// count that holds.
    pub fn commit_ticket_count(&mut self)
        ensures
            match parsed(old(self).ticket_count_str@) {
                Some(count) => *final(self) == (RandomizerApp {
                    ticket_count: count,
                    ..*old(self)
                }),
                None => {
                    &&& final(self).ticket_count_str@ == decimal_digits(
                        old(self).ticket_count as nat,
                    )
                    &&& *final(self) == (RandomizerApp {
                        ticket_count_str: final(self).ticket_count_str,
                        ..*old(self)
                    })
                },
            },
    {
        match parse_usize(self.ticket_count_str.as_str()) {
            Some(count) => {
                self.ticket_count = count;
            },
            None => {
                self.ticket_count_str = decimal_string(self.ticket_count);
            },
        }
    }

    /// Takes over what the user has typed into the length field, in the same
    /// way.
    pub fn commit_ticket_length(&mut self)
        ensures
            match parsed(old(self).ticket_length_str@) {
                Some(length) => *final(self) == (RandomizerApp {
                    ticket_length: length,
                    ..*old(self)
                }),
                None => {
                    &&& final(self).ticket_length_str@ == decimal_digits(
                        old(self).ticket_length as nat,
                    )
                    &&& *final(self) == (RandomizerApp {
                        ticket_length_str: final(self).ticket_length_str,
                        ..*old(self)
                    })
                },
            },
    {
        match parse_usize(self.ticket_length_str.as_str()) {
            Some(length) => {
                self.ticket_length = length;
            },
            None => {
                self.ticket_length_str = decimal_string(self.ticket_length);
            },
        }
    }

    /// Takes the destination the user has chosen.
    pub fn choose_destination(&mut self, path: String)
        ensures
            *final(self) == (RandomizerApp { file_path: Some(path), ..*old(self) }),
    {
        self.file_path = Some(path);
    }
}

} // verus!
