use vstd::prelude::*;
use crate::text::{trim, trim_str};

verus! {

/// The application's persisted preferences.
#[derive(Debug, Clone)]
pub struct AppSettings {
    pub last_view: String,
    pub browse_section: String,
    pub browse_only_new: bool,
    pub browse_date_from: String,
    pub browse_date_to: String,
    pub bulk_max_articles: String,
    pub bulk_per_section_cap: String,
    pub bulk_stop_after_old: String,
    pub library_sort: String,
    pub library_only_not_uploaded: bool,
    pub library_min_words: String,
    pub library_max_words: String,
    pub library_duplicate_only: bool,
    pub lingq_language: String,
    pub lingq_api_key: String,
    pub lingq_collection_id: Option<i64>,
    pub lingq_only_not_uploaded: bool,
    pub lingq_min_words: String,
    pub lingq_max_words: String,
    pub show_library_filters: bool,
    pub show_upload_tools: bool,
    pub preview_wide: bool,
    pub article_density: String,
    pub auto_fetch_on_startup: bool,
}

impl AppSettings {
    /// The settings a fresh installation starts with.
    pub open spec fn is_default(&self) -> bool {
        &&& self.last_view@ == "browse"@
        &&& self.browse_section@ == "politik"@
        &&& self.browse_only_new
        &&& self.browse_date_from@ == Seq::<char>::empty()
        &&& self.browse_date_to@ == Seq::<char>::empty()
        &&& self.bulk_max_articles@ == "60"@
        &&& self.bulk_per_section_cap@ == "30"@
        &&& self.bulk_stop_after_old@ == "12"@
        &&& self.library_sort@ == "newest"@
        &&& !self.library_only_not_uploaded
        &&& self.library_min_words@ == Seq::<char>::empty()
        &&& self.library_max_words@ == Seq::<char>::empty()
        &&& !self.library_duplicate_only
        &&& self.lingq_language@ == "de"@
        &&& self.lingq_api_key@ == Seq::<char>::empty()
        &&& self.lingq_collection_id is None
        &&& self.lingq_only_not_uploaded
        &&& self.lingq_min_words@ == Seq::<char>::empty()
        &&& self.lingq_max_words@ == Seq::<char>::empty()
        &&& self.show_library_filters
        &&& self.show_upload_tools
        &&& !self.preview_wide
        &&& self.article_density@ == "compact"@
        &&& !self.auto_fetch_on_startup
    }
}

impl Default for AppSettings {
    fn default() -> (s: Self)
        ensures
            s.is_default(),
    {
        AppSettings {
            last_view: "browse".to_owned(),
            browse_section: "politik".to_owned(),
            browse_only_new: true,
            browse_date_from: String::new(),
            browse_date_to: String::new(),
            bulk_max_articles: "60".to_owned(),
            bulk_per_section_cap: "30".to_owned(),
            bulk_stop_after_old: "12".to_owned(),
            library_sort: "newest".to_owned(),
            library_only_not_uploaded: false,
            library_min_words: String::new(),
            library_max_words: String::new(),
            library_duplicate_only: false,
            lingq_language: "de".to_owned(),
            lingq_api_key: String::new(),
            lingq_collection_id: None,
            lingq_only_not_uploaded: true,
            lingq_min_words: String::new(),
            lingq_max_words: String::new(),
            show_library_filters: true,
            show_upload_tools: true,
            preview_wide: false,
            article_density: "compact".to_owned(),
            auto_fetch_on_startup: false,
        }
    }
}

/// `std::path::PathBuf`, carried through as the location of the settings file.
#[verifier::external_type_specification]
#[verifier::external_body]
pub struct ExPathBuf(std::path::PathBuf);

/// The settings together with the file they are kept in.
pub struct SettingsStore {
    path: std::path::PathBuf,
    data: AppSettings,
}

impl SettingsStore {
    pub closed spec fn spec_path(&self) -> std::path::PathBuf {
        self.path
    }

    pub closed spec fn spec_data(&self) -> AppSettings {
        self.data
    }

    /// A store for `path`: what was read from it, or the defaults where the
    /// file was absent or could not be parsed.
    pub fn from_loaded(path: std::path::PathBuf, loaded: Option<AppSettings>) -> (s: Self)
        ensures
            s.spec_path() == path,
            match loaded {
                Some(d) => s.spec_data() == d,
                None => s.spec_data().is_default(),
            },
    {
        let data = match loaded {
            Some(d) => d,
            None => AppSettings::default(),
        };
        SettingsStore { path, data }
    }

    /// The file the settings are saved to.
    pub fn path(&self) -> (p: &std::path::PathBuf)
        ensures
            *p == self.spec_path(),
    {
        &self.path
    }

    pub fn data(&self) -> (d: &AppSettings)
        ensures
            *d == self.spec_data(),
    {
        &self.data
    }

    pub fn data_mut(&mut self) -> (d: &mut AppSettings)
        ensures
            *d == old(self).spec_data(),
            final(self).spec_data() == *final(d),
            final(self).spec_path() == old(self).spec_path(),
    {
        &mut self.data
    }

    /// Applies `updater` to the settings; the caller saves them afterwards.
    pub fn update<F>(&mut self, updater: F)
        where
            F: FnOnce(&mut AppSettings),
        requires
            forall|d: &mut AppSettings| call_requires(updater, (d,)),
        ensures
            final(self).spec_path() == old(self).spec_path(),
            exists|d: &mut AppSettings|
                {
                    &&& mut_ref_current(d) == old(self).spec_data()
                    &&& mut_ref_future(d) == final(self).spec_data()
                    &&& #[trigger] call_ensures(updater, (d,), ())
                },
    {
        updater(&mut self.data);
    }
}


/// The LingQ token to use: the trimmed contents of the token file when that
/// is not blank; else the token kept in the settings, which is taken out of
/// them. The flag says whether that token should be written to the token
/// file (it is not blank).
pub fn choose_api_key(token_file: Option<String>, settings: &mut AppSettings) -> (r: (String, bool))
    ensures
        match token_file {
            Some(t) if trim(t@).len() > 0 => {
                &&& r.0@ == trim(t@)
                &&& !r.1
                &&& *final(settings) == *old(settings)
            },
            _ => {
                &&& r.0@ == old(settings).lingq_api_key@
                &&& r.1 == (trim(old(settings).lingq_api_key@).len() > 0)
                &&& final(settings).lingq_api_key@.len() == 0
                &&& *final(settings) == (AppSettings { lingq_api_key: final(settings).lingq_api_key, ..*old(settings) })
            },
        },
{
    if let Some(t) = &token_file {
        let token = trim_str(t.as_str());
        if !token.as_str().is_empty() {
            return (token, false);
        }
    }
    let mut legacy = String::new();
    std::mem::swap(&mut legacy, &mut settings.lingq_api_key);
    let migrate = !trim_str(legacy.as_str()).as_str().is_empty();
    (legacy, migrate)
}

} // verus!
