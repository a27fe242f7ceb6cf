//! The part of the configuration that the tray reads.

use crate::config::{
    bind_hint, bind_hint_of, migrated_mode, migrated_mode_of, DEFAULT_IMAGE_MODE_ID, LANG_AUTO_ID,
};
use crate::wire::opt_text;
use vstd::prelude::*;

verus! {

pub struct UiConfig {
    pub relay_addr: String,
    pub room: String,
    pub max_text_bytes: usize,
    pub max_image_bytes: usize,
    pub max_file_bytes: usize,
    pub image_mode: String,
    pub language: String,
    /// How the image mode was written at first.
    pub force_png: Option<bool>,
}

#[verifier::ext_equal]
pub struct TrayConfigView {
    pub relay_addr: Seq<char>,
    pub room: Seq<char>,
    pub max_text_bytes: usize,
    pub max_image_bytes: usize,
    pub max_file_bytes: usize,
    pub image_mode: Seq<char>,
    pub language: Seq<char>,
    pub force_png: Option<bool>,
}

impl View for UiConfig {
    type V = TrayConfigView;

    open spec fn view(&self) -> TrayConfigView {
        TrayConfigView {
            relay_addr: self.relay_addr@,
            room: self.room@,
            max_text_bytes: self.max_text_bytes,
            max_image_bytes: self.max_image_bytes,
            max_file_bytes: self.max_file_bytes,
            image_mode: self.image_mode@,
            language: self.language@,
            force_png: self.force_png,
        }
    }
}

/// What is used without a configuration.
pub open spec fn default_config() -> TrayConfigView {
    TrayConfigView {
        relay_addr: "127.0.0.1:8080"@,
        room: "default"@,
        max_text_bytes: 1048576,
        max_image_bytes: 20971520,
        max_file_bytes: 20971520,
        image_mode: DEFAULT_IMAGE_MODE_ID@,
        language: LANG_AUTO_ID@,
        force_png: None,
    }
}

impl Default for UiConfig {
    fn default() -> (res: UiConfig)
        ensures
            res@ == default_config(),
    {
        UiConfig {
            relay_addr: "127.0.0.1:8080".to_string(),
            room: "default".to_string(),
            max_text_bytes: 1048576,
            max_image_bytes: 20971520,
            max_file_bytes: 20971520,
            image_mode: DEFAULT_IMAGE_MODE_ID.to_string(),
            language: LANG_AUTO_ID.to_string(),
            force_png: None,
        }
    }
}

impl UiConfig {
    /// The configuration, after it was read, with the image mode as it is written now.
    pub fn migrated(self) -> (res: UiConfig)
        ensures
            res@ == (TrayConfigView {
                image_mode: migrated_mode(self@.force_png, self@.image_mode),
                force_png: None,
                ..self@
            }),
    {
        let mut c = self;
        c.image_mode = migrated_mode_of(c.force_png, c.image_mode);
        c.force_png = None;
        c
    }

    /// Where a relay can listen: nowhere where its address is one of another machine.
    pub fn relay_bind_hint(&self) -> (res: Option<String>)
        ensures
            opt_text(res) == bind_hint(self@.relay_addr),
    {
        bind_hint_of(self.relay_addr.as_str())
    }
}

/// Without a configuration the tray and the panel use the same settings, with an image mode that
/// there is.
pub proof fn law_tray_and_panel_agree()
    ensures
        ({
            let t = default_config();
            let p = crate::config::default_config();
            &&& t.relay_addr == p.relay_addr
            &&& t.room == p.room
            &&& t.max_text_bytes == p.max_text_bytes
            &&& t.max_image_bytes == p.max_image_bytes
            &&& t.max_file_bytes == p.max_file_bytes
            &&& t.image_mode == p.image_mode
            &&& t.language == p.language
            &&& crate::image_mode::mode_named(t.image_mode) is Some
            &&& bind_hint(t.relay_addr) == Some(t.relay_addr)
        }),
{
    reveal_strlit("127.0.0.1:8080");
    reveal_strlit("127.");
    let a = "127.0.0.1:8080"@;
    crate::text::lemma_trimmed(a);
    assert("127."@ =~= a.take(4));
}

} // verus!
