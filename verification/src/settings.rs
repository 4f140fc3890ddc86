//! The user's preferences, and how playback and the window update them.

use vstd::prelude::*;

verus! {

/// The preferences the client remembers: subtitle language (`off` when the
/// user turned subtitles off), audio language, the window's size when not
/// maximized and whether it was maximized, theme, autoplay of the next
/// episode, and log level. Nothing is set at first.
pub struct Preferences {
    pub subtitle_lang: Option<String>,
    pub audio_lang: Option<String>,
    pub window_width: Option<u32>,
    pub window_height: Option<u32>,
    pub window_maximized: Option<bool>,
    pub theme: Option<String>,
    pub auto_play_next: Option<bool>,
    pub log_level: Option<String>,
}

impl Preferences {
    /// No preference set.
    pub open spec fn is_unset(&self) -> bool {
        &&& self.subtitle_lang is None
        &&& self.audio_lang is None
        &&& self.window_width is None
        &&& self.window_height is None
        &&& self.window_maximized is None
        &&& self.theme is None
        &&& self.auto_play_next is None
        &&& self.log_level is None
    }

    /// Preferences with nothing set.
    pub fn new() -> (r: Preferences)
        ensures
            r.is_unset(),
    {
        Preferences {
            subtitle_lang: None,
            audio_lang: None,
            window_width: None,
            window_height: None,
            window_maximized: None,
            theme: None,
            auto_play_next: None,
            log_level: None,
        }
    }

    /// Records the languages mpv ended with: a reported subtitle language
    /// (`off` included) replaces the preference; a reported audio language
    /// does unless it is empty. Nothing else changes.
    pub fn apply_player_languages(&mut self, sub_lang: Option<String>, audio_lang: Option<String>)
        ensures
            final(self).subtitle_lang == (match sub_lang {
                Some(s) => Some(s),
                None => old(self).subtitle_lang,
            }),
            final(self).audio_lang == (match audio_lang {
                Some(a) => if a@.len() > 0 {
                    Some(a)
                } else {
                    old(self).audio_lang
                },
                None => old(self).audio_lang,
            }),
            final(self).window_width == old(self).window_width,
            final(self).window_height == old(self).window_height,
            final(self).window_maximized == old(self).window_maximized,
            final(self).theme == old(self).theme,
            final(self).auto_play_next == old(self).auto_play_next,
            final(self).log_level == old(self).log_level,
    {
        match sub_lang {
            Some(s) => {
                self.subtitle_lang = Some(s);
            },
            None => {},
        }
        match audio_lang {
            Some(a) => {
                if !a.as_str().is_empty() {
                    self.audio_lang = Some(a);
                }
            },
            None => {},
        }
    }

    /// Records the window's state at close: whether it was maximized, and
    /// its size only when it was not, so that the windowed size survives.
    pub fn record_window(&mut self, width: u32, height: u32, maximized: bool)
        ensures
            final(self).window_maximized == Some(maximized),
            final(self).window_width == (if maximized {
                old(self).window_width
            } else {
                Some(width)
            }),
            final(self).window_height == (if maximized {
                old(self).window_height
            } else {
                Some(height)
            }),
            final(self).subtitle_lang == old(self).subtitle_lang,
            final(self).audio_lang == old(self).audio_lang,
            final(self).theme == old(self).theme,
            final(self).auto_play_next == old(self).auto_play_next,
            final(self).log_level == old(self).log_level,
    {
        self.window_maximized = Some(maximized);
        if !maximized {
            self.window_width = Some(width);
            self.window_height = Some(height);
        }
    }
}

} // verus!
