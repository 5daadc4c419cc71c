//! The session data that the front end edits: status lines, the store's
//! location and key, and its sections.
use crate::sentence::{chars_of, push_char};
use crate::store::Section;
use vstd::prelude::*;

verus! {

/// The state shared by the screens of the front end.
pub struct AppData {
    pub message: Option<String>,
    pub error: Option<String>,
    pub store_path: Option<String>,
    pub store_key: Option<Vec<u8>>,
    pub sections: Vec<Section>,
}

impl Default for AppData {
    fn default() -> (r: Self)
        ensures
            r.message is None,
            r.error is None,
            r.store_path is None,
            r.store_key is None,
            r.sections@.len() == 0,
    {
        AppData {
            message: None,
            error: None,
            store_path: None,
            store_key: None,
            sections: Vec::new(),
        }
    }
}

/// `s` ends with `suffix`.
pub open spec fn ends_with(s: Seq<char>, suffix: Seq<char>) -> bool {
    s.len() >= suffix.len() && s.skip(s.len() - suffix.len()) == suffix
}

/// `s` with a final `from` replaced by `to`; unchanged where it does not end
/// with `from`.
pub open spec fn swap_suffix(s: Seq<char>, from: Seq<char>, to: Seq<char>) -> Seq<char> {
    if ends_with(s, from) {
        s.take(s.len() - from.len()) + to
    } else {
        s
    }
}

/// The extension of an unencrypted store file.
pub open spec fn yaml_suffix() -> Seq<char> {
    seq!['.', 'y', 'a', 'm', 'l']
}

/// The extension of an encrypted store file.
pub open spec fn enc_suffix() -> Seq<char> {
    seq!['.', 'e', 'n', 'c']
}

/// `path` with a final `from` replaced by `to`.
fn replace_suffix(path: &String, from: &str, to: &str) -> (r: String)
    ensures
        r@ == swap_suffix(path@, from@, to@),
{
    let p = chars_of(path.as_str());
    let f = chars_of(from);
    if p.len() < f.len() {
        return path.clone();
    }
    let n = p.len();
    let start = n - f.len();
    let mut i: usize = 0;
    while i < f.len()
        invariant
            i <= f.len(),
            start == p@.len() - f@.len(),
            f@.len() <= p@.len(),
            n == p@.len(),
            p@ == path@,
            f@ == from@,
            forall|k: int| 0 <= k < i ==> p@[start + k] == #[trigger] f@[k],
        decreases f.len() - i,
    {
        if p[start + i] != f[i] {
            proof {
                assert(p@.skip(start as int)[i as int] != f@[i as int]);
            }
            return path.clone();
        }
        i = i + 1;
    }
    proof {
        assert(p@.skip(start as int) =~= f@);
    }
    let mut r = String::new();
    let mut k: usize = 0;
    while k < start
        invariant
            k <= start,
            start <= p@.len(),
            r@ == p@.take(k as int),
        decreases start - k,
    {
        push_char(&mut r, p[k]);
        proof {
            assert(r@ =~= p@.take(k + 1));
        }
        k = k + 1;
    }
    r.append(to);
    r
}

impl AppData {
    /// The store path with a final `.yaml` turned into `.enc`.
    pub fn get_store_path_string_as_enc(&self) -> (r: Option<String>)
        ensures
            r is Some <==> self.store_path is Some,
            r matches Some(s) ==> s@ == swap_suffix(self.store_path->0@, yaml_suffix(), enc_suffix()),
    {
        match &self.store_path {
            Some(p) => {
                proof {
                    reveal_strlit(".yaml");
                    reveal_strlit(".enc");
                    assert(".yaml"@ =~= yaml_suffix());
                    assert(".enc"@ =~= enc_suffix());
                }
                Some(replace_suffix(p, ".yaml", ".enc"))
            },
            None => None,
        }
    }

    /// The store path with a final `.enc` turned into `.yaml`.
    pub fn get_store_path_string_as_yaml(&self) -> (r: Option<String>)
        ensures
            r is Some <==> self.store_path is Some,
            r matches Some(s) ==> s@ == swap_suffix(self.store_path->0@, enc_suffix(), yaml_suffix()),
    {
        match &self.store_path {
            Some(p) => {
                proof {
                    reveal_strlit(".yaml");
                    reveal_strlit(".enc");
                    assert(".yaml"@ =~= yaml_suffix());
                    assert(".enc"@ =~= enc_suffix());
                }
                Some(replace_suffix(p, ".enc", ".yaml"))
            },
            None => None,
        }
    }
}

} // verus!
