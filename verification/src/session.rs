//! The interactive session state machine.  It owns the unlocked vault and
//! the form state, and decides every transition; reading the terminal and
//! writing the vault file are the surrounding program's job.  Methods that
//! would save hand back the sealed container bytes for the caller to
//! persist, and methods that need the current time or the vault file's
//! contents take them as arguments.

use vstd::prelude::*;

use crate::models::{Entry, EntryView, HistoryView, PasswordHistory, Vault, VaultView};
use crate::random;
use crate::screens::{InputField, MessageType, Screen};
use crate::strutil::{
    lower_of, parse_usize, spec_contains, spec_dec_chars, spec_parse_usize, spec_trim, str_chars,
    to_lowercase, trim_str, u64_to_string,
};

use vstd::string::StringExecFns;

verus! {

/// The session state: the current screen, the unlocked vault if any, and
/// the input and form buffers.
pub struct App {
    pub screen: Screen,
    pub vault: Option<Vault>,
    pub master_pwd: String,
    pub selected_menu: usize,
    pub selected_section: usize,
    pub selected_entry: usize,
    pub input_field: InputField,
    pub input_buffer: String,
    pub input_buffer2: String,
    pub msg: String,
    pub msg_type: MessageType,
    pub entry_disp: Vec<Entry>,
    pub search_query: String,
    pub gen_pwd: String,
    pub scroll_offset: usize,
    pub n_entry_name: String,
    pub n_entry_user: String,
    pub n_entry_pass: String,
    pub n_entry_url: String,
    pub n_entry_notes: String,
    pub n_entry_tags: Vec<String>,
    pub tag_input: String,
    pub add_fi: usize,
    pub all_tags: Vec<(String, usize)>,
    pub select_tf: usize,
    pub active_tf: Option<String>,
    pub edit_eid: String,
}

/// The mathematical model of the session state.
pub ghost struct AppView {
    pub screen: Screen,
    pub vault: Option<VaultView>,
    pub master_pwd: Seq<char>,
    pub selected_menu: usize,
    pub selected_section: usize,
    pub selected_entry: usize,
    pub input_field: InputField,
    pub input_buffer: Seq<char>,
    pub input_buffer2: Seq<char>,
    pub msg: Seq<char>,
    pub msg_type: MessageType,
    pub entry_disp: Seq<EntryView>,
    pub search_query: Seq<char>,
    pub gen_pwd: Seq<char>,
    pub scroll_offset: usize,
    pub n_entry_name: Seq<char>,
    pub n_entry_user: Seq<char>,
    pub n_entry_pass: Seq<char>,
    pub n_entry_url: Seq<char>,
    pub n_entry_notes: Seq<char>,
    pub n_entry_tags: Seq<Seq<char>>,
    pub tag_input: Seq<char>,
    pub add_fi: usize,
    pub all_tags: Seq<(Seq<char>, usize)>,
    pub select_tf: usize,
    pub active_tf: Option<Seq<char>>,
    pub edit_eid: Seq<char>,
}

impl View for App {
    type V = AppView;

    open spec fn view(&self) -> AppView {
        AppView {
            screen: self.screen,
            vault: match self.vault {
                Some(v) => Some(v@),
                None => None,
            },
            master_pwd: self.master_pwd@,
            selected_menu: self.selected_menu,
            selected_section: self.selected_section,
            selected_entry: self.selected_entry,
            input_field: self.input_field,
            input_buffer: self.input_buffer@,
            input_buffer2: self.input_buffer2@,
            msg: self.msg@,
            msg_type: self.msg_type,
            entry_disp: self.entry_disp.deep_view(),
            search_query: self.search_query@,
            gen_pwd: self.gen_pwd@,
            scroll_offset: self.scroll_offset,
            n_entry_name: self.n_entry_name@,
            n_entry_user: self.n_entry_user@,
            n_entry_pass: self.n_entry_pass@,
            n_entry_url: self.n_entry_url@,
            n_entry_notes: self.n_entry_notes@,
            n_entry_tags: self.n_entry_tags.deep_view(),
            tag_input: self.tag_input@,
            add_fi: self.add_fi,
            all_tags: tags_view(self.all_tags),
            select_tf: self.select_tf,
            active_tf: match self.active_tf {
                Some(t) => Some(t@),
                None => None,
            },
            edit_eid: self.edit_eid@,
        }
    }
}

impl App {
    /// A fresh session: at the vault check, with every buffer empty.
    pub fn new() -> (r: Self)
        ensures
            r@.screen == Screen::VaultCheck,
            r@.vault is None,
            r@.master_pwd.len() == 0,
            r@.selected_menu == 0,
            r@.selected_section == 0,
            r@.selected_entry == 0,
            r@.input_field == InputField::Idle,
            r@.input_buffer.len() == 0,
            r@.input_buffer2.len() == 0,
            r@.msg.len() == 0,
            r@.msg_type == MessageType::Neutral,
            r@.entry_disp.len() == 0,
            r@.search_query.len() == 0,
            r@.gen_pwd.len() == 0,
            r@.scroll_offset == 0,
            r@.n_entry_name.len() == 0,
            r@.n_entry_user.len() == 0,
            r@.n_entry_pass.len() == 0,
            r@.n_entry_url.len() == 0,
            r@.n_entry_notes.len() == 0,
            r@.n_entry_tags.len() == 0,
            r@.tag_input.len() == 0,
            r@.add_fi == 0,
            r@.all_tags.len() == 0,
            r@.select_tf == 0,
            r@.active_tf is None,
            r@.edit_eid.len() == 0,
    {
        App {
            screen: Screen::VaultCheck,
            vault: None,
            master_pwd: String::new(),
            selected_menu: 0,
            selected_section: 0,
            selected_entry: 0,
            input_field: InputField::Idle,
            input_buffer: String::new(),
            input_buffer2: String::new(),
            msg: String::new(),
            msg_type: MessageType::Neutral,
            entry_disp: Vec::new(),
            search_query: String::new(),
            gen_pwd: String::new(),
            scroll_offset: 0,
            n_entry_name: String::new(),
            n_entry_user: String::new(),
            n_entry_pass: String::new(),
            n_entry_url: String::new(),
            n_entry_notes: String::new(),
            n_entry_tags: Vec::new(),
            tag_input: String::new(),
            add_fi: 0,
            all_tags: Vec::new(),
            select_tf: 0,
            active_tf: None,
            edit_eid: String::new(),
        }
    }

    /// Records a status message.  Nothing else changes.
    pub fn set_msg(&mut self, msg: &str, msg_type: MessageType)
        ensures
            final(self)@ == (AppView { msg: msg@, msg_type, ..old(self)@ }),
    {
        self.msg = msg.to_owned();
        self.msg_type = msg_type;
    }

    /// Moves to the unlock screen when a vault exists, and to the creation
    /// screen — with a hint message — when none does.
    pub fn check_vault(&mut self, exists: bool)
        ensures
            exists ==> final(self)@ == (AppView {
                screen: Screen::UnlockVault,
                input_field: InputField::Password,
                ..old(self)@
            }),
            !exists ==> final(self)@ == (AppView {
                screen: Screen::CreateVault,
                input_field: InputField::Password,
                msg: "No vault found. Create one to get started!"@,
                msg_type: MessageType::Info,
                ..old(self)@
            }),
    {
        if exists {
            self.screen = Screen::UnlockVault;
            self.input_field = InputField::Password;
        } else {
            self.screen = Screen::CreateVault;
            self.input_field = InputField::Password;
            self.set_msg("No vault found. Create one to get started!", MessageType::Info);
        }
    }

    /// Clears the add/edit form.
    pub fn ca_form(&mut self)
        ensures
            final(self)@ == (AppView {
                n_entry_name: Seq::empty(),
                n_entry_user: Seq::empty(),
                n_entry_pass: Seq::empty(),
                n_entry_url: Seq::empty(),
                n_entry_notes: Seq::empty(),
                n_entry_tags: Seq::empty(),
                tag_input: Seq::empty(),
                add_fi: 0,
                edit_eid: Seq::empty(),
                ..old(self)@
            }),
    {
        self.n_entry_name = String::new();
        self.n_entry_user = String::new();
        self.n_entry_pass = String::new();
        self.n_entry_url = String::new();
        self.n_entry_notes = String::new();
        self.n_entry_tags = Vec::new();
        self.tag_input = String::new();
        self.add_fi = 0;
        self.edit_eid = String::new();
        proof {
            assert(self.n_entry_tags.deep_view() =~= Seq::<Seq<char>>::empty());
        }
    }

    /// Removes the tag at `index` from the form, when it exists.
    pub fn remove_tag(&mut self, index: usize)
        ensures
            index < old(self)@.n_entry_tags.len() ==> final(self)@ == (AppView {
                n_entry_tags: old(self)@.n_entry_tags.remove(index as int),
                ..old(self)@
            }),
            index >= old(self)@.n_entry_tags.len() ==> *final(self) == *old(self),
    {
        if index < self.n_entry_tags.len() {
            self.n_entry_tags.remove(index);
            proof {
                assert(self.n_entry_tags.deep_view() =~= old(
                    self,
                )@.n_entry_tags.remove(index as int));
            }
        }
    }

    /// Adds the trimmed, lower-cased tag input to the form's tags, unless
    /// it is empty or already present; a fresh tag clears the input.
    pub fn add_tag(&mut self)
        ensures
            ({
                let t = lower_of(spec_trim(old(self)@.tag_input));
                if t.len() > 0 && !old(self)@.n_entry_tags.contains(t) {
                    final(self)@ == (AppView {
                        n_entry_tags: old(self)@.n_entry_tags.push(t),
                        tag_input: Seq::<char>::empty(),
                        ..old(self)@
                    })
                } else {
                    *final(self) == *old(self)
                }
            }),
    {
        let trimmed = trim_str(self.tag_input.as_str());
        let tag = to_lowercase(trimmed);
        if !tag.as_str().is_empty() && !vec_contains_string(&self.n_entry_tags, &tag) {
            let ghost pre = self.n_entry_tags.deep_view();
            self.n_entry_tags.push(tag);
            self.tag_input = String::new();
            proof {
                assert(self.n_entry_tags.deep_view() =~= pre.push(
                    lower_of(spec_trim(old(self)@.tag_input)),
                ));
            }
        }
    }

    /// Generates a password into the session: the requested length is
    /// parsed from the input buffer, defaults to sixteen and is clamped to
    /// four through sixty-four.  When the randomness source is unavailable
    /// the generated password is left empty.
    pub fn gen_pwd(&mut self)
        ensures
            final(self)@ == (AppView { gen_pwd: final(self)@.gen_pwd, ..old(self)@ }),
            final(self)@.gen_pwd.len() == spec_gen_len(old(self)@.input_buffer)
                || final(self)@.gen_pwd.len() == 0,
            forall|i: int|
                0 <= i < final(self)@.gen_pwd.len() ==> random::pwd_char_ok(
                    #[trigger] final(self)@.gen_pwd[i],
                ),
    {
        let chars = str_chars(self.input_buffer.as_str());
        let parsed = parse_usize(&chars);
        let wanted = match parsed {
            Some(n) => n,
            None => 16,
        };
        let len = if wanted < 4 {
            4
        } else if wanted > 64 {
            64
        } else {
            wanted
        };
        match random::gen_pwd(len) {
            Some(p) => {
                self.gen_pwd = p;
            },
            None => {
                self.gen_pwd = String::new();
            },
        }
    }


    /// Rebuilds the tag index from the unlocked vault: every tag with its
    /// occurrence count, ordered by count with the most used first.
    /// Nothing happens when no vault is unlocked.
    pub fn load_at(&mut self)
        ensures
            match old(self)@.vault {
                None => *final(self) == *old(self),
                Some(v) => final(self)@ == (AppView {
                    all_tags: final(self)@.all_tags,
                    ..old(self)@
                }) && tags_counts_ok(final(self)@.all_tags, v.e) && tags_sorted(
                    final(self)@.all_tags,
                ),
            },
    {
        let computed: Option<Vec<(String, usize)>> = match &self.vault {
            None => None,
            Some(v) => {
                let mut tags = collect_tags(&v.e);
                sort_tags(&mut tags, Ghost(v.e.deep_view()));
                Some(tags)
            },
        };
        match computed {
            Some(t) => {
                self.all_tags = t;
            },
            None => {},
        }
    }

    /// Creates a fresh vault from the two password buffers: the password
    /// must be at least four bytes and both buffers must agree.  On
    /// success the new, empty vault is unlocked, the buffers are cleared,
    /// and the sealed container is returned for the caller to persist;
    /// opening it with the same password gives the vault back.  On any
    /// failure an error message is recorded and nothing is returned.
    pub fn create_vault(&mut self) -> (r: Option<Vec<u8>>)
        ensures
            ({
                let pwb = old(self)@.input_buffer;
                if vstd::utf8::encode_utf8(pwb).len() < 4 {
                    r is None && final(self)@ == (AppView {
                        msg: "Password too short (min 4 chars)"@,
                        msg_type: MessageType::Error,
                        ..old(self)@
                    })
                } else if pwb != old(self)@.input_buffer2 {
                    r is None && final(self)@ == (AppView {
                        msg: "Passwords don't match!"@,
                        msg_type: MessageType::Error,
                        ..old(self)@
                    })
                } else {
                    match r {
                        Some(c) => final(self)@ == (AppView {
                            master_pwd: pwb,
                            vault: final(self)@.vault,
                            screen: Screen::MainMenu,
                            input_buffer: Seq::<char>::empty(),
                            input_buffer2: Seq::<char>::empty(),
                            input_field: InputField::Idle,
                            msg: "Vault created successfully!"@,
                            msg_type: MessageType::Success,
                            ..old(self)@
                        }) && (final(self)@.vault matches Some(v) && v.e.len() == 0 && v.s.len()
                            == crate::models::SALT_LEN && c@.subrange(
                            0,
                            crate::models::SALT_LEN as int,
                        ) == v.s && crate::engine::spec_open_vault(
                            vstd::utf8::encode_utf8(pwb),
                            c@,
                        ) == Ok::<VaultView, crate::errors::VaultError>(v)),
                        None => final(self)@ == (AppView {
                            msg: final(self)@.msg,
                            msg_type: MessageType::Error,
                            ..old(self)@
                        }) && (exists|e: crate::errors::VaultError|
                            final(self)@.msg == "Failed to create vault: "@
                                + crate::errors::spec_describe(e)),
                    }
                }
            }),
    {
        if self.input_buffer.as_str().as_bytes().len() < 4 {
            self.set_msg("Password too short (min 4 chars)", MessageType::Error);
            return None;
        }
        if !(self.input_buffer == self.input_buffer2) {
            self.set_msg("Passwords don't match!", MessageType::Error);
            return None;
        }
        let salt = match crate::random::gen_salt() {
            Some(s) => s,
            None => {
                let m = String::from_str("Failed to create vault: ").concat(
                    crate::errors::VaultError::SealError.describe(),
                );
                self.set_msg(m.as_str(), MessageType::Error);
                proof {
                    assert(self@.msg == "Failed to create vault: "@ + crate::errors::spec_describe(
                        crate::errors::VaultError::SealError,
                    ));
                }
                return None;
            },
        };
        let vault = Vault::new(salt);
        match crate::engine::seal_vault(&vault, self.input_buffer.as_str()) {
            Ok(c) => {
                self.master_pwd = self.input_buffer.clone();
                self.vault = Some(vault);
                self.screen = Screen::MainMenu;
                self.input_buffer = String::new();
                self.input_buffer2 = String::new();
                self.input_field = InputField::Idle;
                self.set_msg("Vault created successfully!", MessageType::Success);
                Some(c)
            },
            Err(e) => {
                let m = String::from_str("Failed to create vault: ").concat(e.describe());
                self.set_msg(m.as_str(), MessageType::Error);
                proof {
                    assert(self@.msg == "Failed to create vault: "@ + crate::errors::spec_describe(
                        e,
                    ));
                }
                None
            },
        }
    }

    /// Unlocks the vault from the container bytes the caller read, using
    /// the password buffer.  On success the vault is loaded, the tag index
    /// rebuilt, every entry shown, and the buffer cleared; any failure is
    /// surfaced only as a wrong-password message, by design.
    pub fn unlock_vault(&mut self, container: &[u8])
        ensures
            match crate::engine::spec_open_vault(
                vstd::utf8::encode_utf8(old(self)@.input_buffer),
                container@,
            ) {
                Ok(v) => final(self)@ == (AppView {
                    vault: Some(v),
                    master_pwd: old(self)@.input_buffer,
                    screen: Screen::MainMenu,
                    input_buffer: Seq::<char>::empty(),
                    input_field: InputField::Idle,
                    msg: "Vault unlocked!"@,
                    msg_type: MessageType::Success,
                    all_tags: final(self)@.all_tags,
                    entry_disp: v.e,
                    ..old(self)@
                }) && tags_counts_ok(final(self)@.all_tags, v.e) && tags_sorted(
                    final(self)@.all_tags,
                ),
                Err(_) => final(self)@ == (AppView {
                    msg: "Wrong password!"@,
                    msg_type: MessageType::Error,
                    ..old(self)@
                }),
            },
    {
        match crate::engine::open_vault(container, self.input_buffer.as_str()) {
            Ok(vault) => {
                self.master_pwd = self.input_buffer.clone();
                self.vault = Some(vault);
                self.screen = Screen::MainMenu;
                self.input_buffer = String::new();
                self.input_field = InputField::Idle;
                self.set_msg("Vault unlocked!", MessageType::Success);
                self.load_at();
                let disp: Vec<Entry> = match &self.vault {
                    Some(v) => crate::models::clone_entry_vec(&v.e),
                    None => Vec::new(),
                };
                self.entry_disp = disp;
            },
            Err(_) => {
                self.set_msg("Wrong password!", MessageType::Error);
            },
        }
    }


    /// Adds the entry the form describes to the vault and returns the
    /// freshly sealed container for the caller to persist.  Name, username
    /// and password are required; the entry keeps its place at the end of
    /// the list.  When sealing fails the entry stays in the unlocked vault
    /// and an error message is recorded.
    pub fn add_entry(&mut self, now: u64) -> (r: Option<Vec<u8>>)
        requires
            match old(self)@.vault {
                Some(v) => v.wf(),
                None => true,
            },
        ensures
            ({
                let o = old(self)@;
                if o.n_entry_name.len() == 0 || o.n_entry_user.len() == 0 || o.n_entry_pass.len()
                    == 0 {
                    r is None && final(self)@ == (AppView {
                        msg: "Name, Username, and Password are required!"@,
                        msg_type: MessageType::Error,
                        ..o
                    })
                } else {
                    match o.vault {
                        None => r is None && *final(self) == *old(self),
                        Some(v) => match r {
                            Some(c) => final(self)@.vault matches Some(nv) && nv.s == v.s
                                && nv.e.len() == v.e.len() + 1 && nv.e.take(v.e.len() as int)
                                == v.e && spec_added_entry(nv.e.last(), o, now)
                                && crate::engine::spec_open_vault(
                                vstd::utf8::encode_utf8(o.master_pwd),
                                c@,
                            ) == Ok::<VaultView, crate::errors::VaultError>(nv) && tags_counts_ok(
                                final(self)@.all_tags,
                                nv.e,
                            ) && tags_sorted(final(self)@.all_tags) && final(self)@ == (AppView {
                                vault: final(self)@.vault,
                                msg: "Password added successfully!"@,
                                msg_type: MessageType::Success,
                                n_entry_name: Seq::<char>::empty(),
                                n_entry_user: Seq::<char>::empty(),
                                n_entry_pass: Seq::<char>::empty(),
                                n_entry_url: Seq::<char>::empty(),
                                n_entry_notes: Seq::<char>::empty(),
                                n_entry_tags: Seq::<Seq<char>>::empty(),
                                tag_input: Seq::<char>::empty(),
                                add_fi: 0,
                                edit_eid: Seq::<char>::empty(),
                                screen: Screen::MainMenu,
                                all_tags: final(self)@.all_tags,
                                entry_disp: nv.e,
                                ..o
                            }),
                            None => final(self)@ == (AppView {
                                vault: final(self)@.vault,
                                msg: final(self)@.msg,
                                msg_type: MessageType::Error,
                                ..o
                            }) && (exists|e: crate::errors::VaultError|
                                final(self)@.msg == "Failed to save: "@
                                    + crate::errors::spec_describe(e)),
                        },
                    }
                }
            }),
    {
        if self.n_entry_name.as_str().is_empty() || self.n_entry_user.as_str().is_empty()
            || self.n_entry_pass.as_str().is_empty() {
            self.set_msg("Name, Username, and Password are required!", MessageType::Error);
            return None;
        }
        let mut v = match self.vault.take() {
            Some(v) => v,
            None => {
                return None;
            },
        };
        let id = match crate::random::generate_uuid() {
            Some(i) => i,
            None => {
                self.vault = Some(v);
                let m = String::from_str("Failed to save: ").concat(
                    crate::errors::VaultError::SealError.describe(),
                );
                self.set_msg(m.as_str(), MessageType::Error);
                proof {
                    assert(self@.msg == "Failed to save: "@ + crate::errors::spec_describe(
                        crate::errors::VaultError::SealError,
                    ));
                }
                return None;
            },
        };
        let entry = Entry {
            id,
            n: self.n_entry_name.clone(),
            u: self.n_entry_user.clone(),
            p: self.n_entry_pass.clone(),
            url: if self.n_entry_url.as_str().is_empty() {
                None
            } else {
                Some(self.n_entry_url.clone())
            },
            nt: if self.n_entry_notes.as_str().is_empty() {
                None
            } else {
                Some(self.n_entry_notes.clone())
            },
            t: now,
            tags: crate::models::clone_string_vec(&self.n_entry_tags),
            history: Vec::new(),
            last_modified: now,
        };
        let ghost pre_e = v.e.deep_view();
        v.e.push(entry);
        proof {
            assert(v.e.deep_view() =~= pre_e.push(v.e.deep_view().last()));
            assert(v.e.deep_view().take(pre_e.len() as int) =~= pre_e);
            assert(v@.e.last().history =~= Seq::<HistoryView>::empty());
        }
        let sealed = crate::engine::seal_vault(&v, self.master_pwd.as_str());
        self.vault = Some(v);
        match sealed {
            Ok(c) => {
                self.set_msg("Password added successfully!", MessageType::Success);
                self.ca_form();
                self.screen = Screen::MainMenu;
                self.load_at();
                let disp: Vec<Entry> = match &self.vault {
                    Some(v2) => crate::models::clone_entry_vec(&v2.e),
                    None => Vec::new(),
                };
                self.entry_disp = disp;
                Some(c)
            },
            Err(e) => {
                let m = String::from_str("Failed to save: ").concat(e.describe());
                self.set_msg(m.as_str(), MessageType::Error);
                proof {
                    assert(self@.msg == "Failed to save: "@ + crate::errors::spec_describe(e));
                }
                None
            },
        }
    }

    /// Applies the form to the entry whose identifier is being edited and
    /// returns the freshly sealed container for the caller to persist.
    /// Name, username and password are required; a changed password pushes
    /// the old one into the entry's bounded history.  When sealing fails
    /// the edit stays in the unlocked vault and an error message is
    /// recorded; an unknown identifier changes nothing.
    pub fn edit_entry(&mut self, now: u64) -> (r: Option<Vec<u8>>)
        requires
            match old(self)@.vault {
                Some(v) => v.wf(),
                None => true,
            },
        ensures
            ({
                let o = old(self)@;
                if o.n_entry_name.len() == 0 || o.n_entry_user.len() == 0 || o.n_entry_pass.len()
                    == 0 {
                    r is None && final(self)@ == (AppView {
                        msg: "Name, Username, and Password are required!"@,
                        msg_type: MessageType::Error,
                        ..o
                    })
                } else {
                    match o.vault {
                        None => r is None && *final(self) == *old(self),
                        Some(v) => match spec_find_entry(v.e, o.edit_eid) {
                            None => r is None && *final(self) == *old(self),
                            Some(idx) => match r {
                                Some(c) => final(self)@.vault matches Some(nv) && nv.s == v.s
                                    && nv.e == v.e.update(
                                    idx,
                                    spec_updated_entry(v.e[idx], o, now),
                                ) && crate::engine::spec_open_vault(
                                    vstd::utf8::encode_utf8(o.master_pwd),
                                    c@,
                                ) == Ok::<VaultView, crate::errors::VaultError>(nv)
                                    && tags_counts_ok(final(self)@.all_tags, nv.e) && tags_sorted(
                                    final(self)@.all_tags,
                                ) && final(self)@ == (AppView {
                                    vault: final(self)@.vault,
                                    msg: "Entry updated successfully!"@,
                                    msg_type: MessageType::Success,
                                    n_entry_name: Seq::<char>::empty(),
                                    n_entry_user: Seq::<char>::empty(),
                                    n_entry_pass: Seq::<char>::empty(),
                                    n_entry_url: Seq::<char>::empty(),
                                    n_entry_notes: Seq::<char>::empty(),
                                    n_entry_tags: Seq::<Seq<char>>::empty(),
                                    tag_input: Seq::<char>::empty(),
                                    add_fi: 0,
                                    edit_eid: Seq::<char>::empty(),
                                    screen: Screen::MainMenu,
                                    all_tags: final(self)@.all_tags,
                                    entry_disp: nv.e,
                                    ..o
                                }),
                                None => final(self)@ == (AppView {
                                    vault: final(self)@.vault,
                                    msg: final(self)@.msg,
                                    msg_type: MessageType::Error,
                                    ..o
                                }) && (exists|e: crate::errors::VaultError|
                                    final(self)@.msg == "Failed to save: "@
                                        + crate::errors::spec_describe(e)),
                            },
                        },
                    }
                }
            }),
    {
        if self.n_entry_name.as_str().is_empty() || self.n_entry_user.as_str().is_empty()
            || self.n_entry_pass.as_str().is_empty() {
            self.set_msg("Name, Username, and Password are required!", MessageType::Error);
            return None;
        }
        let mut v = match self.vault.take() {
            Some(v) => v,
            None => {
                return None;
            },
        };
        proof {
            lemma_find_entry_props(v.e.deep_view(), old(self)@.edit_eid);
        }
        let idx = match find_entry_index(&v.e, &self.edit_eid) {
            Some(i) => i,
            None => {
                self.vault = Some(v);
                return None;
            },
        };
        let old_entry = v.e[idx].clone();
        let mut history = crate::models::clone_history_vec(&old_entry.history);
        if !(old_entry.p == self.n_entry_pass) {
            if history.len() >= crate::models::HISTORY_CAP {
                history.remove(0);
            }
            history.push(
                PasswordHistory { password: old_entry.p.clone(), changed_at: now },
            );
            proof {
                if old_entry@.history.len() >= crate::models::HISTORY_CAP {
                    assert(history.deep_view() =~= old_entry@.history.subrange(
                        1,
                        old_entry@.history.len() as int,
                    ).push(HistoryView { password: old_entry@.p, changed_at: now }));
                } else {
                    assert(history.deep_view() =~= old_entry@.history.push(
                        HistoryView { password: old_entry@.p, changed_at: now },
                    ));
                }
            }
        }
        let updated = Entry {
            id: old_entry.id.clone(),
            n: self.n_entry_name.clone(),
            u: self.n_entry_user.clone(),
            p: self.n_entry_pass.clone(),
            url: if self.n_entry_url.as_str().is_empty() {
                None
            } else {
                Some(self.n_entry_url.clone())
            },
            nt: if self.n_entry_notes.as_str().is_empty() {
                None
            } else {
                Some(self.n_entry_notes.clone())
            },
            t: old_entry.t,
            tags: crate::models::clone_string_vec(&self.n_entry_tags),
            history,
            last_modified: now,
        };
        let ghost pre_e = v.e.deep_view();
        v.e.set(idx, updated);
        proof {
            assert(v.e.deep_view() =~= pre_e.update(
                idx as int,
                spec_updated_entry(pre_e[idx as int], old(self)@, now),
            ));
        }
        let sealed = crate::engine::seal_vault(&v, self.master_pwd.as_str());
        self.vault = Some(v);
        match sealed {
            Ok(c) => {
                self.set_msg("Entry updated successfully!", MessageType::Success);
                self.ca_form();
                self.screen = Screen::MainMenu;
                self.load_at();
                let disp: Vec<Entry> = match &self.vault {
                    Some(v2) => crate::models::clone_entry_vec(&v2.e),
                    None => Vec::new(),
                };
                self.entry_disp = disp;
                Some(c)
            },
            Err(e) => {
                let m = String::from_str("Failed to save: ").concat(e.describe());
                self.set_msg(m.as_str(), MessageType::Error);
                proof {
                    assert(self@.msg == "Failed to save: "@ + crate::errors::spec_describe(e));
                }
                None
            },
        }
    }

    /// Removes the entry at `index` from the vault and returns the freshly
    /// sealed container for the caller to persist.  An index out of range
    /// only records a message.  When sealing fails the removal stays in
    /// the unlocked vault and an error message is recorded.
    pub fn delete_entry(&mut self, index: usize) -> (r: Option<Vec<u8>>)
        requires
            match old(self)@.vault {
                Some(v) => v.wf(),
                None => true,
            },
        ensures
            ({
                let o = old(self)@;
                match o.vault {
                    None => r is None && *final(self) == *old(self),
                    Some(v) => if index >= v.e.len() {
                        r is None && final(self)@ == (AppView {
                            msg: "Invalid entry number!"@,
                            msg_type: MessageType::Error,
                            ..o
                        })
                    } else {
                        match r {
                            Some(c) => final(self)@.vault matches Some(nv) && nv.s == v.s && nv.e
                                == v.e.remove(index as int) && crate::engine::spec_open_vault(
                                vstd::utf8::encode_utf8(o.master_pwd),
                                c@,
                            ) == Ok::<VaultView, crate::errors::VaultError>(nv) && tags_counts_ok(
                                final(self)@.all_tags,
                                nv.e,
                            ) && tags_sorted(final(self)@.all_tags) && final(self)@ == (AppView {
                                vault: final(self)@.vault,
                                msg: "Deleted '"@ + v.e[index as int].n + "'"@,
                                msg_type: MessageType::Success,
                                screen: Screen::MainMenu,
                                all_tags: final(self)@.all_tags,
                                entry_disp: nv.e,
                                ..o
                            }),
                            None => final(self)@ == (AppView {
                                vault: final(self)@.vault,
                                msg: final(self)@.msg,
                                msg_type: MessageType::Error,
                                ..o
                            }) && (exists|e: crate::errors::VaultError|
                                final(self)@.msg == "Failed to save: "@
                                    + crate::errors::spec_describe(e)),
                        }
                    },
                }
            }),
    {
        let mut v = match self.vault.take() {
            Some(v) => v,
            None => {
                return None;
            },
        };
        if index >= v.e.len() {
            self.vault = Some(v);
            self.set_msg("Invalid entry number!", MessageType::Error);
            return None;
        }
        let removed = v.e.remove(index);
        proof {
            assert(v.e.deep_view() =~= old(self)@.vault->0.e.remove(index as int));
        }
        let sealed = crate::engine::seal_vault(&v, self.master_pwd.as_str());
        self.vault = Some(v);
        match sealed {
            Ok(c) => {
                let m = String::from_str("Deleted '").concat(removed.n.as_str()).concat("'");
                self.set_msg(m.as_str(), MessageType::Success);
                self.screen = Screen::MainMenu;
                self.load_at();
                let disp: Vec<Entry> = match &self.vault {
                    Some(v2) => crate::models::clone_entry_vec(&v2.e),
                    None => Vec::new(),
                };
                self.entry_disp = disp;
                Some(c)
            },
            Err(e) => {
                let m = String::from_str("Failed to save: ").concat(e.describe());
                self.set_msg(m.as_str(), MessageType::Error);
                proof {
                    assert(self@.msg == "Failed to save: "@ + crate::errors::spec_describe(e));
                }
                None
            },
        }
    }

    /// How long ago a timestamp lies, as text: today, or a count of days,
    /// months or years.
    pub fn get_ta(timestamp: u64, now: u64) -> (r: String)
        ensures
            r@ == spec_time_ago(timestamp, now),
    {
        let diff = if now >= timestamp {
            now - timestamp
        } else {
            0
        };
        let days = diff / 86400;
        if days == 0 {
            String::from_str("Today")
        } else if days == 1 {
            String::from_str("1 day ago")
        } else if days < 30 {
            let s = u64_to_string(days);
            s.concat(" days ago")
        } else if days < 365 {
            let months = days / 30;
            if months == 1 {
                String::from_str("1 month ago")
            } else {
                let s = u64_to_string(months);
                s.concat(" months ago")
            }
        } else {
            let years = days / 365;
            if years == 1 {
                String::from_str("1 year ago")
            } else {
                let s = u64_to_string(years);
                s.concat(" years ago")
            }
        }
    }

    /// Filters the displayed entries by the search query, both sides taken
    /// lower-case; an empty query shows every entry.  Nothing happens when
    /// no vault is unlocked.
    pub fn search_entries(&mut self)
        ensures
            match old(self)@.vault {
                None => *final(self) == *old(self),
                Some(v) => final(self)@ == (AppView {
                    entry_disp: spec_search_result(v.e, old(self)@.search_query),
                    ..old(self)@
                }),
            },
    {
        let result: Option<Vec<Entry>> = match &self.vault {
            None => None,
            Some(v) => {
                let q = to_lowercase(self.search_query.as_str());
                if q.as_str().is_empty() {
                    Some(crate::models::clone_entry_vec(&v.e))
                } else {
                    let qc = str_chars(q.as_str());
                    Some(filter_entries(&v.e, &qc))
                }
            },
        };
        match result {
            Some(r) => {
                self.entry_disp = r;
            },
            None => {},
        }
    }

    /// Filters the displayed entries by a tag, and records it as the
    /// active filter; no tag shows every entry.  Only the active filter
    /// changes when no vault is unlocked.
    pub fn filter_bt(&mut self, tag: Option<String>)
        ensures
            ({
                let t = match tag {
                    Some(s) => Some(s@),
                    None => None,
                };
                match old(self)@.vault {
                    None => final(self)@ == (AppView { active_tf: t, ..old(self)@ }),
                    Some(v) => final(self)@ == (AppView {
                        active_tf: t,
                        entry_disp: spec_tag_filter(v.e, t),
                        ..old(self)@
                    }),
                }
            }),
    {
        let result: Option<Vec<Entry>> = match &self.vault {
            None => None,
            Some(v) => match &tag {
                Some(t) => Some(filter_entries_by_tag(&v.e, t)),
                None => Some(crate::models::clone_entry_vec(&v.e)),
            },
        };
        self.active_tf = tag;
        match result {
            Some(r) => {
                self.entry_disp = r;
            },
            None => {},
        }
    }

    /// Loads the first entry with the given identifier into the edit form
    /// and moves to the edit screen.  Nothing happens when no vault is
    /// unlocked or no entry has that identifier.
    pub fn load_efe(&mut self, entry_id: &str)
        ensures
            match old(self)@.vault {
                None => *final(self) == *old(self),
                Some(v) => match spec_find_entry(v.e, entry_id@) {
                    None => *final(self) == *old(self),
                    Some(i) => final(self)@ == (AppView {
                        edit_eid: v.e[i].id,
                        n_entry_name: v.e[i].n,
                        n_entry_user: v.e[i].u,
                        n_entry_pass: v.e[i].p,
                        n_entry_url: match v.e[i].url {
                            Some(u) => u,
                            None => Seq::<char>::empty(),
                        },
                        n_entry_notes: match v.e[i].nt {
                            Some(n) => n,
                            None => Seq::<char>::empty(),
                        },
                        n_entry_tags: v.e[i].tags,
                        add_fi: 0,
                        screen: Screen::EditPassword,
                        ..old(self)@
                    }),
                },
            },
    {
        let found: Option<Entry> = match &self.vault {
            None => None,
            Some(v) => find_entry(&v.e, entry_id),
        };
        match found {
            None => {},
            Some(e) => {
                self.edit_eid = e.id.clone();
                self.n_entry_name = e.n.clone();
                self.n_entry_user = e.u.clone();
                self.n_entry_pass = e.p.clone();
                self.n_entry_url = match &e.url {
                    Some(u) => u.clone(),
                    None => String::new(),
                };
                self.n_entry_notes = match &e.nt {
                    Some(n) => n.clone(),
                    None => String::new(),
                };
                self.n_entry_tags = crate::models::clone_string_vec(&e.tags);
                self.add_fi = 0;
                self.screen = Screen::EditPassword;
            },
        }
    }
}

/// The length of the password the generator is asked for: parsed from the
/// buffer, sixteen by default, clamped to four through sixty-four.
pub open spec fn spec_gen_len(buffer: Seq<char>) -> usize {
    let wanted = match spec_parse_usize(buffer) {
        Some(n) => n,
        None => 16usize,
    };
    if wanted < 4 {
        4usize
    } else if wanted > 64 {
        64usize
    } else {
        wanted
    }
}

/// How long ago a timestamp lies, as text.
pub open spec fn spec_time_ago(timestamp: u64, now: u64) -> Seq<char> {
    let diff = if now >= timestamp {
        (now - timestamp) as u64
    } else {
        0u64
    };
    let days = diff / 86400;
    if days == 0 {
        "Today"@
    } else if days == 1 {
        "1 day ago"@
    } else if days < 30 {
        spec_dec_chars(days) + " days ago"@
    } else if days < 365 {
        let months = days / 30;
        if months == 1 {
            "1 month ago"@
        } else {
            spec_dec_chars(months) + " months ago"@
        }
    } else {
        let years = days / 365;
        if years == 1 {
            "1 year ago"@
        } else {
            spec_dec_chars(years) + " years ago"@
        }
    }
}

/// Whether a vector of strings holds one with the given characters.
fn vec_contains_string(v: &Vec<String>, t: &String) -> (r: bool)
    ensures
        r == v.deep_view().contains(t@),
{
    let mut i: usize = 0;
    while i < v.len()
        invariant
            i <= v@.len(),
            forall|j: int| 0 <= j < i ==> v.deep_view()[j] != t@,
        decreases v@.len() - i,
    {
        if v[i] == *t {
            proof {
                assert(v.deep_view()[i as int] == t@);
            }
            return true;
        }
        i = i + 1;
    }
    proof {
        assert(forall|j: int| 0 <= j < v.deep_view().len() ==> v.deep_view()[j] != t@);
    }
    false
}

/// Whether an entry matches a lower-case query: in its name, username,
/// URL or one of its tags, each taken lower-case.
pub open spec fn spec_entry_matches(e: EntryView, q: Seq<char>) -> bool {
    spec_contains(lower_of(e.n), q) || spec_contains(lower_of(e.u), q) || (match e.url {
        Some(u) => spec_contains(lower_of(u), q),
        None => false,
    }) || (exists|i: int|
        0 <= i < e.tags.len() && spec_contains(lower_of(#[trigger] e.tags[i]), q))
}

/// What a search shows: every entry for an empty query, else the entries
/// that match the lower-cased query.
pub open spec fn spec_search_result(es: Seq<EntryView>, query: Seq<char>) -> Seq<EntryView> {
    let q = lower_of(query);
    if q.len() == 0 {
        es
    } else {
        es.filter(|e: EntryView| spec_entry_matches(e, q))
    }
}

/// What a tag filter shows: every entry for no tag, else the entries that
/// carry the tag.
pub open spec fn spec_tag_filter(es: Seq<EntryView>, tag: Option<Seq<char>>) -> Seq<EntryView> {
    match tag {
        None => es,
        Some(t) => es.filter(|e: EntryView| e.tags.contains(t)),
    }
}

/// The first index holding an entry with the given identifier.
pub open spec fn spec_find_entry(es: Seq<EntryView>, id: Seq<char>) -> Option<int>
    decreases es.len(),
{
    if es.len() == 0 {
        None
    } else if es[0].id == id {
        Some(0int)
    } else {
        match spec_find_entry(es.drop_first(), id) {
            Some(i) => Some(i + 1),
            None => None,
        }
    }
}

/// A found index is in range, carries the identifier, and is the first to.
proof fn lemma_find_entry_props(es: Seq<EntryView>, id: Seq<char>)
    ensures
        match spec_find_entry(es, id) {
            Some(i) => 0 <= i < es.len() && es[i].id == id && forall|j: int|
                0 <= j < i ==> (#[trigger] es[j]).id != id,
            None => forall|j: int| 0 <= j < es.len() ==> (#[trigger] es[j]).id != id,
        },
    decreases es.len(),
{
    if es.len() == 0 {
    } else if es[0].id == id {
    } else {
        lemma_find_entry_props(es.drop_first(), id);
        match spec_find_entry(es.drop_first(), id) {
            Some(i) => {
                assert(forall|j: int|
                    1 <= j < i + 1 ==> (#[trigger] es[j]) == es.drop_first()[j - 1]);
            },
            None => {
                assert(forall|j: int|
                    1 <= j < es.len() ==> (#[trigger] es[j]) == es.drop_first()[j - 1]);
            },
        }
    }
}

/// Whether any of the tags matches the lower-case query when lower-cased.
fn tags_match(tags: &Vec<String>, qc: &Vec<char>) -> (r: bool)
    ensures
        r == (exists|i: int|
            0 <= i < tags.deep_view().len() && spec_contains(
                lower_of(#[trigger] tags.deep_view()[i]),
                qc@,
            )),
{
    let mut i: usize = 0;
    while i < tags.len()
        invariant
            i <= tags@.len(),
            forall|j: int|
                0 <= j < i ==> !spec_contains(lower_of(#[trigger] tags.deep_view()[j]), qc@),
        decreases tags@.len() - i,
    {
        if crate::strutil::contains_lower(tags[i].as_str(), qc) {
            proof {
                assert(spec_contains(lower_of(tags.deep_view()[i as int]), qc@));
            }
            return true;
        }
        i = i + 1;
    }
    false
}

/// Whether the entry matches the lower-case query.
fn entry_matches(e: &Entry, qc: &Vec<char>) -> (r: bool)
    ensures
        r == spec_entry_matches(e@, qc@),
{
    if crate::strutil::contains_lower(e.n.as_str(), qc) {
        return true;
    }
    if crate::strutil::contains_lower(e.u.as_str(), qc) {
        return true;
    }
    let url_hit = match &e.url {
        Some(u) => crate::strutil::contains_lower(u.as_str(), qc),
        None => false,
    };
    if url_hit {
        return true;
    }
    let th = tags_match(&e.tags, qc);
    proof {
        if th {
            assert(spec_entry_matches(e@, qc@));
        } else {
            assert(!spec_contains(lower_of(e@.n), qc@));
            assert(!spec_contains(lower_of(e@.u), qc@));
            assert(match e@.url {
                Some(u) => !spec_contains(lower_of(u), qc@),
                None => true,
            });
            assert(!(exists|i: int|
                0 <= i < e@.tags.len() && spec_contains(lower_of(#[trigger] e@.tags[i]), qc@)));
            assert(!spec_entry_matches(e@, qc@));
        }
    }
    th
}

/// The entries that match the lower-case query, in order.
fn filter_entries(es: &Vec<Entry>, qc: &Vec<char>) -> (r: Vec<Entry>)
    ensures
        r.deep_view() == es.deep_view().filter(
            |e: EntryView| spec_entry_matches(e, qc@),
        ),
{
    let ghost pred = |e: EntryView| spec_entry_matches(e, qc@);
    let mut r: Vec<Entry> = Vec::new();
    let mut i: usize = 0;
    proof {
        reveal(Seq::filter);
        assert(r.deep_view() =~= es.deep_view().take(0).filter(pred));
    }
    while i < es.len()
        invariant
            i <= es@.len(),
            es.deep_view().len() == es@.len(),
            r.deep_view() == es.deep_view().take(i as int).filter(
                |e: EntryView| spec_entry_matches(e, qc@),
            ),
        decreases es@.len() - i,
    {
        let ghost pre = r.deep_view();
        let hit = entry_matches(&es[i], qc);
        if hit {
            r.push(es[i].clone());
        }
        i = i + 1;
        proof {
            reveal(Seq::filter);
            let p = |e: EntryView| spec_entry_matches(e, qc@);
            assert(es.deep_view().take(i as int).drop_last() =~= es.deep_view().take(i - 1));
            assert(es.deep_view().take(i as int).last() == es.deep_view()[i - 1]);
            if hit {
                assert(r.deep_view() =~= pre.push(es.deep_view()[i - 1]));
            }
            assert(r.deep_view() =~= es.deep_view().take(i as int).filter(p));
        }
    }
    proof {
        assert(es.deep_view().take(es@.len() as int) =~= es.deep_view());
    }
    r
}

/// The entries that carry the tag, in order.
fn filter_entries_by_tag(es: &Vec<Entry>, tag: &String) -> (r: Vec<Entry>)
    ensures
        r.deep_view() == es.deep_view().filter(|e: EntryView| e.tags.contains(tag@)),
{
    let ghost pred = |e: EntryView| e.tags.contains(tag@);
    let mut r: Vec<Entry> = Vec::new();
    let mut i: usize = 0;
    proof {
        reveal(Seq::filter);
        assert(r.deep_view() =~= es.deep_view().take(0).filter(pred));
    }
    while i < es.len()
        invariant
            i <= es@.len(),
            es.deep_view().len() == es@.len(),
            r.deep_view() == es.deep_view().take(i as int).filter(
                |e: EntryView| e.tags.contains(tag@),
            ),
        decreases es@.len() - i,
    {
        let ghost pre = r.deep_view();
        let hit = vec_contains_string(&es[i].tags, tag);
        proof {
            assert(es[i as int]@.tags == es.deep_view()[i as int].tags);
        }
        if hit {
            r.push(es[i].clone());
        }
        i = i + 1;
        proof {
            reveal(Seq::filter);
            let p = |e: EntryView| e.tags.contains(tag@);
            assert(es.deep_view().take(i as int).drop_last() =~= es.deep_view().take(i - 1));
            assert(es.deep_view().take(i as int).last() == es.deep_view()[i - 1]);
            if hit {
                assert(r.deep_view() =~= pre.push(es.deep_view()[i - 1]));
            }
            assert(r.deep_view() =~= es.deep_view().take(i as int).filter(p));
        }
    }
    proof {
        assert(es.deep_view().take(es@.len() as int) =~= es.deep_view());
    }
    r
}

/// The first entry with the given identifier, copied out.
fn find_entry(es: &Vec<Entry>, id: &str) -> (r: Option<Entry>)
    ensures
        match r {
            Some(e) => match spec_find_entry(es.deep_view(), id@) {
                Some(i) => e@ == es.deep_view()[i],
                None => false,
            },
            None => spec_find_entry(es.deep_view(), id@) is None,
        },
{
    proof {
        lemma_find_entry_props(es.deep_view(), id@);
    }
    let mut i: usize = 0;
    while i < es.len()
        invariant
            i <= es@.len(),
            es.deep_view().len() == es@.len(),
            forall|j: int| 0 <= j < i ==> (#[trigger] es.deep_view()[j]).id != id@,
            match spec_find_entry(es.deep_view(), id@) {
                Some(k) => 0 <= k < es.deep_view().len() && es.deep_view()[k].id == id@
                    && forall|j: int|
                    0 <= j < k ==> (#[trigger] es.deep_view()[j]).id != id@,
                None => forall|j: int|
                    0 <= j < es.deep_view().len() ==> (#[trigger] es.deep_view()[j]).id != id@,
            },
        decreases es@.len() - i,
    {
        let eq = string_eq_str(&es[i].id, id);
        if eq {
            proof {
                assert(es.deep_view()[i as int].id == id@);
                match spec_find_entry(es.deep_view(), id@) {
                    Some(k) => {
                        assert(k == i);
                    },
                    None => {
                        assert(false);
                    },
                }
            }
            return Some(es[i].clone());
        }
        proof {
            assert(es.deep_view()[i as int].id != id@);
        }
        i = i + 1;
    }
    None
}


/// The position of the first entry with the given identifier, if any.
fn find_entry_index(es: &Vec<Entry>, id: &String) -> (r: Option<usize>)
    ensures
        match r {
            Some(i) => spec_find_entry(es.deep_view(), id@) == Some(i as int),
            None => spec_find_entry(es.deep_view(), id@) is None,
        },
{
    proof {
        lemma_find_entry_props(es.deep_view(), id@);
    }
    let mut i: usize = 0;
    while i < es.len()
        invariant
            i <= es@.len(),
            es.deep_view().len() == es@.len(),
            forall|j: int| 0 <= j < i ==> (#[trigger] es.deep_view()[j]).id != id@,
            match spec_find_entry(es.deep_view(), id@) {
                Some(k) => 0 <= k < es.deep_view().len() && es.deep_view()[k].id == id@
                    && forall|j: int| 0 <= j < k ==> (#[trigger] es.deep_view()[j]).id != id@,
                None => forall|j: int|
                    0 <= j < es.deep_view().len() ==> (#[trigger] es.deep_view()[j]).id != id@,
            },
        decreases es@.len() - i,
    {
        if es[i].id == *id {
            proof {
                assert(es.deep_view()[i as int].id == id@);
                match spec_find_entry(es.deep_view(), id@) {
                    Some(k) => {
                        assert(k == i);
                    },
                    None => {
                        assert(false);
                    },
                }
            }
            return Some(i);
        }
        proof {
            assert(es.deep_view()[i as int].id != id@);
        }
        i = i + 1;
    }
    None
}

/// Whether a string holds the given characters.
fn string_eq_str(s: &String, t: &str) -> (r: bool)
    ensures
        r == (s@ == t@),
{
    let sc = str_chars(s.as_str());
    let tc = str_chars(t);
    chars_eq(&sc, &tc)
}

/// Whether two character vectors are equal.
fn chars_eq(a: &Vec<char>, b: &Vec<char>) -> (r: bool)
    ensures
        r == (a@ == b@),
{
    if a.len() != b.len() {
        proof {
            assert(a@.len() != b@.len());
        }
        return false;
    }
    let mut i: usize = 0;
    while i < a.len()
        invariant
            i <= a@.len(),
            a@.len() == b@.len(),
            forall|j: int| 0 <= j < i ==> a@[j] == b@[j],
        decreases a@.len() - i,
    {
        if a[i] != b[i] {
            return false;
        }
        i = i + 1;
    }
    proof {
        assert(a@ =~= b@);
    }
    true
}


/// The entry the add form describes: fresh history, both timestamps `now`,
/// empty optional fields left out.
pub open spec fn spec_added_entry(e: EntryView, a: AppView, now: u64) -> bool {
    &&& e.n == a.n_entry_name
    &&& e.u == a.n_entry_user
    &&& e.p == a.n_entry_pass
    &&& e.url == (if a.n_entry_url.len() == 0 {
        Option::<Seq<char>>::None
    } else {
        Option::<Seq<char>>::Some(a.n_entry_url)
    })
    &&& e.nt == (if a.n_entry_notes.len() == 0 {
        Option::<Seq<char>>::None
    } else {
        Option::<Seq<char>>::Some(a.n_entry_notes)
    })
    &&& e.t == now
    &&& e.tags == a.n_entry_tags
    &&& e.history.len() == 0
    &&& e.last_modified == now
}

/// What editing an entry through the form yields: the identifier and the
/// creation time stay; a changed password pushes the old one into the
/// bounded history.
pub open spec fn spec_updated_entry(old_e: EntryView, a: AppView, now: u64) -> EntryView {
    EntryView {
        id: old_e.id,
        n: a.n_entry_name,
        u: a.n_entry_user,
        p: a.n_entry_pass,
        url: if a.n_entry_url.len() == 0 {
            None
        } else {
            Some(a.n_entry_url)
        },
        nt: if a.n_entry_notes.len() == 0 {
            None
        } else {
            Some(a.n_entry_notes)
        },
        t: old_e.t,
        tags: a.n_entry_tags,
        history: if old_e.p != a.n_entry_pass {
            (if old_e.history.len() >= crate::models::HISTORY_CAP {
                old_e.history.subrange(1, old_e.history.len() as int)
            } else {
                old_e.history
            }).push(HistoryView { password: old_e.p, changed_at: now })
        } else {
            old_e.history
        },
        last_modified: now,
    }
}

/// How often a tag occurs in a list of tags.
pub open spec fn spec_count_in(ts: Seq<Seq<char>>, t: Seq<char>) -> nat
    decreases ts.len(),
{
    if ts.len() == 0 {
        0
    } else {
        spec_count_in(ts.drop_last(), t) + (if ts.last() == t {
            1nat
        } else {
            0nat
        })
    }
}

/// How often a tag occurs across all entries.
pub open spec fn spec_tag_count(es: Seq<EntryView>, t: Seq<char>) -> nat
    decreases es.len(),
{
    if es.len() == 0 {
        0
    } else {
        spec_tag_count(es.drop_last(), t) + spec_count_in(es.last().tags, t)
    }
}

/// A count clamped to what a machine word holds.
pub open spec fn cnt_clamp(n: nat) -> usize {
    if n > usize::MAX {
        usize::MAX
    } else {
        n as usize
    }
}

/// The view of the tag index: each pair's characters and count.
pub open spec fn tags_view(v: Vec<(String, usize)>) -> Seq<(Seq<char>, usize)> {
    Seq::new(v@.len(), |i: int| (v@[i].0@, v@[i].1))
}

/// The tag index is exact for the entries: each listed tag occurs that
/// often (clamped to a machine word) and at least once, no tag is listed
/// twice, and every tag of every entry is listed.
pub open spec fn tags_counts_ok(ts: Seq<(Seq<char>, usize)>, es: Seq<EntryView>) -> bool {
    &&& forall|i: int|
        0 <= i < ts.len() ==> (#[trigger] ts[i]).1 == cnt_clamp(spec_tag_count(es, ts[i].0))
    &&& forall|i: int| 0 <= i < ts.len() ==> spec_tag_count(es, (#[trigger] ts[i]).0) > 0
    &&& forall|i: int, j: int|
        0 <= i < j < ts.len() ==> (#[trigger] ts[i]).0 != (#[trigger] ts[j]).0
    &&& forall|ei: int, tj: int|
        #![trigger es[ei].tags[tj]]
        0 <= ei < es.len() && 0 <= tj < es[ei].tags.len() ==> tag_listed(ts, es[ei].tags[tj])
}

/// The tag index is ordered by count, largest first.
pub open spec fn tags_sorted(ts: Seq<(Seq<char>, usize)>) -> bool {
    forall|i: int, j: int| 0 <= i < j < ts.len() ==> (#[trigger] ts[i]).1 >= (#[trigger] ts[j]).1
}

/// Whether the tag index lists the given tag.
pub open spec fn tag_listed(ts: Seq<(Seq<char>, usize)>, t: Seq<char>) -> bool {
    exists|k: int| 0 <= k < ts.len() && (#[trigger] ts[k]).0 == t
}

/// Listing survives any change that keeps the listed tags.
proof fn lemma_tag_listed_extend(
    pre: Seq<(Seq<char>, usize)>,
    post: Seq<(Seq<char>, usize)>,
    t: Seq<char>,
)
    requires
        tag_listed(pre, t),
        post.len() >= pre.len(),
        forall|k: int| 0 <= k < pre.len() ==> (#[trigger] post[k]).0 == (#[trigger] pre[k]).0,
    ensures
        tag_listed(post, t),
{
    let k = choose|k: int| 0 <= k < pre.len() && (#[trigger] pre[k]).0 == t;
    assert(post[k].0 == t);
}

/// A positive occurrence count has a witness.
proof fn lemma_count_in_witness(ts: Seq<Seq<char>>, t: Seq<char>)
    requires
        spec_count_in(ts, t) > 0,
    ensures
        exists|j: int| 0 <= j < ts.len() && ts[j] == t,
    decreases ts.len(),
{
    if ts.len() == 0 {
    } else if ts.last() == t {
        assert(ts[ts.len() - 1] == t);
    } else {
        lemma_count_in_witness(ts.drop_last(), t);
        let j = choose|j: int| 0 <= j < ts.drop_last().len() && ts.drop_last()[j] == t;
        assert(ts[j] == t);
    }
}

/// A positive tag count has a witness among the entries.
proof fn lemma_tag_count_witness(es: Seq<EntryView>, t: Seq<char>)
    requires
        spec_tag_count(es, t) > 0,
    ensures
        exists|ei: int, tj: int|
            0 <= ei < es.len() && 0 <= tj < es[ei].tags.len() && #[trigger] es[ei].tags[tj] == t,
    decreases es.len(),
{
    if es.len() == 0 {
    } else if spec_count_in(es.last().tags, t) > 0 {
        lemma_count_in_witness(es.last().tags, t);
        let j = choose|j: int| 0 <= j < es.last().tags.len() && es.last().tags[j] == t;
        assert(es[es.len() - 1].tags[j] == t);
    } else {
        lemma_tag_count_witness(es.drop_last(), t);
        let (ei, tj) = choose|ei: int, tj: int|
            0 <= ei < es.drop_last().len() && 0 <= tj < es.drop_last()[ei].tags.len()
                && #[trigger] es.drop_last()[ei].tags[tj] == t;
        assert(es[ei].tags[tj] == t);
    }
}

/// Collects every tag of every entry with its occurrence count.
fn collect_tags(es: &Vec<Entry>) -> (r: Vec<(String, usize)>)
    ensures
        tags_counts_ok(tags_view(r), es.deep_view()),
{
    let ghost esv = es.deep_view();
    let mut acc: Vec<(String, usize)> = Vec::new();
    let mut i: usize = 0;
    proof {
        assert(esv.take(0) =~= Seq::<EntryView>::empty());
    }
    while i < es.len()
        invariant
            i <= es@.len(),
            esv == es.deep_view(),
            esv.len() == es@.len(),
            forall|k: int|
                0 <= k < tags_view(acc).len() ==> (#[trigger] tags_view(acc)[k]).1 == cnt_clamp(
                    spec_tag_count(esv.take(i as int), tags_view(acc)[k].0),
                ),
            forall|k: int|
                0 <= k < tags_view(acc).len() ==> spec_tag_count(
                    esv.take(i as int),
                    (#[trigger] tags_view(acc)[k]).0,
                ) > 0,
            forall|k: int, m: int|
                0 <= k < m < tags_view(acc).len() ==> (#[trigger] tags_view(acc)[k]).0 != (
                #[trigger] tags_view(acc)[m]).0,
            forall|ei: int, tj: int|
                #![trigger esv[ei].tags[tj]]
                0 <= ei < i && 0 <= tj < esv[ei].tags.len() ==> tag_listed(
                    tags_view(acc),
                    esv[ei].tags[tj],
                ),
        decreases es@.len() - i,
    {
        let entry_tags = &es[i].tags;
        proof {
            assert(es[i as int]@.tags == esv[i as int].tags);
        }
        let mut j: usize = 0;
        proof {
            assert forall|ei: int, tj: int|
                #![trigger esv[ei].tags[tj]]
                (0 <= ei < i && 0 <= tj < esv[ei].tags.len()) || (ei == i && 0 <= tj < 0
                ) implies tag_listed(tags_view(acc), esv[ei].tags[tj]) by {
                assert(0 <= ei < i && 0 <= tj < esv[ei].tags.len());
            }
            assert(entry_tags.deep_view().take(0) =~= Seq::<Seq<char>>::empty());
            assert forall|t: Seq<char>| #[trigger] spec_count_in(
                entry_tags.deep_view().take(0),
                t,
            ) == 0 by {}
        }
        while j < entry_tags.len()
            invariant
                j <= entry_tags@.len(),
                i < es@.len(),
                esv == es.deep_view(),
                esv.len() == es@.len(),
                entry_tags.deep_view() == esv[i as int].tags,
                forall|k: int|
                    0 <= k < tags_view(acc).len() ==> (#[trigger] tags_view(acc)[k]).1
                        == cnt_clamp(
                        spec_tag_count(esv.take(i as int), tags_view(acc)[k].0) + spec_count_in(
                            esv[i as int].tags.take(j as int),
                            tags_view(acc)[k].0,
                        ),
                    ),
                forall|k: int|
                    0 <= k < tags_view(acc).len() ==> spec_tag_count(
                        esv.take(i as int),
                        (#[trigger] tags_view(acc)[k]).0,
                    ) + spec_count_in(
                        esv[i as int].tags.take(j as int),
                        tags_view(acc)[k].0,
                    ) > 0,
                forall|k: int, m: int|
                    0 <= k < m < tags_view(acc).len() ==> (#[trigger] tags_view(acc)[k]).0 != (
                    #[trigger] tags_view(acc)[m]).0,
                forall|ei: int, tj: int|
                    #![trigger esv[ei].tags[tj]]
                    (0 <= ei < i && 0 <= tj < esv[ei].tags.len()) || (ei == i && 0 <= tj < j)
                        ==> tag_listed(tags_view(acc), esv[ei].tags[tj]),
            decreases entry_tags@.len() - j,
        {
            let tag = &entry_tags[j];
            proof {
                assert(entry_tags[j as int]@ == esv[i as int].tags[j as int]);
            }
            let found = find_tag(&acc, tag);
            let ghost pre = tags_view(acc);
            let ghost u = tag@;
            match found {
                Some(k) => {
                    let name = acc[k].0.clone();
                    let c = acc[k].1;
                    let newc = if c < usize::MAX {
                        c + 1
                    } else {
                        c
                    };
                    acc.set(k, (name, newc));
                    proof {
                        assert(tags_view(acc) =~= pre.update(k as int, (u, newc)));
                        assert(esv[i as int].tags.take(j + 1).drop_last() =~= esv[i as int].tags.take(j as int));
                        assert(esv[i as int].tags.take(j + 1).last() == u);
                        assert forall|ei: int, tj: int|
                            #![trigger esv[ei].tags[tj]]
                            (0 <= ei < i && 0 <= tj < esv[ei].tags.len()) || (ei == i && 0 <= tj
                                < j + 1) implies tag_listed(tags_view(acc), esv[ei].tags[tj]) by {
                            if ei == i && tj == j {
                                assert(tags_view(acc)[k as int].0 == u);
                                assert(tag_listed(tags_view(acc), u));
                            } else {
                                lemma_tag_listed_extend(pre, tags_view(acc), esv[ei].tags[tj]);
                            }
                        }
                    }
                },
                None => {
                    proof {
                        if spec_tag_count(esv.take(i as int), u) + spec_count_in(
                            esv[i as int].tags.take(j as int),
                            u,
                        ) > 0 {
                            if spec_count_in(esv[i as int].tags.take(j as int), u) > 0 {
                                lemma_count_in_witness(esv[i as int].tags.take(j as int), u);
                            } else {
                                lemma_tag_count_witness(esv.take(i as int), u);
                            }
                            assert(false);
                        }
                    }
                    acc.push((tag.clone(), 1));
                    proof {
                        assert(tags_view(acc) =~= pre.push((u, 1usize)));
                        assert(esv[i as int].tags.take(j + 1).drop_last() =~= esv[i as int].tags.take(j as int));
                        assert(esv[i as int].tags.take(j + 1).last() == u);
                        assert forall|ei: int, tj: int|
                            #![trigger esv[ei].tags[tj]]
                            (0 <= ei < i && 0 <= tj < esv[ei].tags.len()) || (ei == i && 0 <= tj
                                < j + 1) implies tag_listed(tags_view(acc), esv[ei].tags[tj]) by {
                            if ei == i && tj == j {
                                assert(tags_view(acc)[pre.len() as int].0 == u);
                                assert(tag_listed(tags_view(acc), u));
                            } else {
                                lemma_tag_listed_extend(pre, tags_view(acc), esv[ei].tags[tj]);
                            }
                        }
                    }
                },
            }
            j = j + 1;
        }
        proof {
            assert(esv[i as int].tags.take(esv[i as int].tags.len() as int) =~= esv[i as int].tags);
            assert(esv.take(i + 1).drop_last() =~= esv.take(i as int));
            assert(esv.take(i + 1).last() == esv[i as int]);
            assert forall|t: Seq<char>| #[trigger] spec_tag_count(esv.take(i + 1), t)
                == spec_tag_count(esv.take(i as int), t) + spec_count_in(
                esv[i as int].tags,
                t,
            ) by {}
        }
        i = i + 1;
    }
    proof {
        assert(esv.take(es@.len() as int) =~= esv);
    }
    acc
}

/// The index of the pair holding the given tag, if any.
fn find_tag(acc: &Vec<(String, usize)>, tag: &String) -> (r: Option<usize>)
    ensures
        match r {
            Some(k) => k < acc@.len() && tags_view(*acc)[k as int].0 == tag@,
            None => forall|k: int|
                0 <= k < tags_view(*acc).len() ==> (#[trigger] tags_view(*acc)[k]).0 != tag@,
        },
{
    let mut k: usize = 0;
    while k < acc.len()
        invariant
            k <= acc@.len(),
            forall|m: int| 0 <= m < k ==> (#[trigger] tags_view(*acc)[m]).0 != tag@,
        decreases acc@.len() - k,
    {
        if acc[k].0 == *tag {
            proof {
                assert(tags_view(*acc)[k as int].0 == tag@);
            }
            return Some(k);
        }
        proof {
            assert(tags_view(*acc)[k as int].0 != tag@);
        }
        k = k + 1;
    }
    None
}

/// Swaps two positions of the tag index.
fn swap_tags(v: &mut Vec<(String, usize)>, a: usize, b: usize)
    requires
        a < old(v)@.len(),
        b < old(v)@.len(),
    ensures
        tags_view(*final(v)) == tags_view(*old(v)).update(
            a as int,
            tags_view(*old(v))[b as int],
        ).update(b as int, tags_view(*old(v))[a as int]),
{
    let pa = (v[a].0.clone(), v[a].1);
    let pb = (v[b].0.clone(), v[b].1);
    v.set(a, pb);
    v.set(b, pa);
    proof {
        assert(tags_view(*v) =~= tags_view(*old(v)).update(
            a as int,
            tags_view(*old(v))[b as int],
        ).update(b as int, tags_view(*old(v))[a as int]));
    }
}

/// Swapping two positions keeps the index exact for the entries.
proof fn lemma_counts_ok_swap(
    pre: Seq<(Seq<char>, usize)>,
    post: Seq<(Seq<char>, usize)>,
    es: Seq<EntryView>,
    a: int,
    b: int,
)
    requires
        tags_counts_ok(pre, es),
        0 <= a < pre.len(),
        0 <= b < pre.len(),
        post == pre.update(a, pre[b]).update(b, pre[a]),
    ensures
        tags_counts_ok(post, es),
{
    assert(post.len() == pre.len());
    assert forall|k: int| 0 <= k < post.len() implies (#[trigger] post[k]).1 == cnt_clamp(
        spec_tag_count(es, post[k].0),
    ) && spec_tag_count(es, post[k].0) > 0 by {
        let p = if k == b {
            a
        } else if k == a {
            b
        } else {
            k
        };
        assert(post[k] == pre[p]);
    }
    assert forall|i2: int, j2: int| 0 <= i2 < j2 < post.len() implies (#[trigger] post[i2]).0 != (
    #[trigger] post[j2]).0 by {
        let pi = if i2 == b {
            a
        } else if i2 == a {
            b
        } else {
            i2
        };
        let pj = if j2 == b {
            a
        } else if j2 == a {
            b
        } else {
            j2
        };
        assert(post[i2] == pre[pi]);
        assert(post[j2] == pre[pj]);
        assert(pi != pj);
        if pi < pj {
            assert(pre[pi].0 != pre[pj].0);
        } else {
            assert(pre[pj].0 != pre[pi].0);
        }
    }
    assert forall|ei: int, tj: int|
        #![trigger es[ei].tags[tj]]
        0 <= ei < es.len() && 0 <= tj < es[ei].tags.len() implies tag_listed(
        post,
        es[ei].tags[tj],
    ) by {
        let t = es[ei].tags[tj];
        let k0 = choose|k: int| 0 <= k < pre.len() && (#[trigger] pre[k]).0 == t;
        let k1 = if k0 == a {
            b
        } else if k0 == b {
            a
        } else {
            k0
        };
        assert(post[k1].0 == t);
    }
}

/// Sorts the tag index by count, largest first, keeping it exact for the
/// entries.
fn sort_tags(v: &mut Vec<(String, usize)>, es: Ghost<Seq<EntryView>>)
    requires
        tags_counts_ok(tags_view(*old(v)), es@),
    ensures
        tags_counts_ok(tags_view(*final(v)), es@),
        tags_sorted(tags_view(*final(v))),
{
    let n = v.len();
    let mut i: usize = 0;
    while i < n
        invariant
            i <= n,
            n == v@.len(),
            tags_counts_ok(tags_view(*v), es@),
            forall|p: int, q: int|
                0 <= p < q < i ==> (#[trigger] tags_view(*v)[p]).1 >= (
                #[trigger] tags_view(*v)[q]).1,
            forall|p: int, q: int|
                0 <= p < i <= q < n ==> (#[trigger] tags_view(*v)[p]).1 >= (
                #[trigger] tags_view(*v)[q]).1,
        decreases n - i,
    {
        let mut m: usize = i;
        let mut t: usize = i + 1;
        while t < n
            invariant
                i <= m < t <= n,
                n == v@.len(),
                tags_counts_ok(tags_view(*v), es@),
                forall|p: int, q: int|
                    0 <= p < q < i ==> (#[trigger] tags_view(*v)[p]).1 >= (
                    #[trigger] tags_view(*v)[q]).1,
                forall|p: int, q: int|
                    0 <= p < i <= q < n ==> (#[trigger] tags_view(*v)[p]).1 >= (
                    #[trigger] tags_view(*v)[q]).1,
                forall|q: int|
                    i <= q < t ==> tags_view(*v)[m as int].1 >= (#[trigger] tags_view(*v)[q]).1,
            decreases n - t,
        {
            if v[t].1 > v[m].1 {
                proof {
                    assert(tags_view(*v)[t as int].1 == v@[t as int].1);
                }
                m = t;
            }
            proof {
                assert(tags_view(*v)[t as int].1 == v@[t as int].1);
                assert(tags_view(*v)[m as int].1 == v@[m as int].1);
            }
            t = t + 1;
        }
        let ghost pre = tags_view(*v);
        swap_tags(v, i, m);
        proof {
            lemma_counts_ok_swap(pre, tags_view(*v), es@, i as int, m as int);
            assert forall|p: int, q: int| 0 <= p < q < i + 1 implies (
            #[trigger] tags_view(*v)[p]).1 >= (#[trigger] tags_view(*v)[q]).1 by {
                if q < i {
                    assert(tags_view(*v)[p] == pre[p]);
                    assert(tags_view(*v)[q] == pre[q]);
                } else {
                    assert(tags_view(*v)[q] == pre[m as int]);
                    if p < i {
                        assert(tags_view(*v)[p] == pre[p]);
                        assert(pre[p].1 >= pre[m as int].1);
                    }
                }
            }
            assert forall|p: int, q: int| 0 <= p < i + 1 <= q < n implies (
            #[trigger] tags_view(*v)[p]).1 >= (#[trigger] tags_view(*v)[q]).1 by {
                let vq = if q == m {
                    pre[i as int]
                } else {
                    pre[q]
                };
                assert(tags_view(*v)[q] == vq);
                assert(pre[m as int].1 >= vq.1);
                if p < i {
                    assert(tags_view(*v)[p] == pre[p]);
                    assert(pre[p].1 >= vq.1);
                } else {
                    assert(tags_view(*v)[p] == pre[m as int]);
                }
            }
        }
        i = i + 1;
    }
}

} // verus!
