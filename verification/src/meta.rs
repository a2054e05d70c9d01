//! Information about this backend and its authorship.

use vstd::prelude::*;

verus! {

/// The text describing who wrote the backend and where its source lives.
pub open spec fn meta_text() -> Seq<char> {
    "Written by: Decator <decator.c@proton.me>.\nSee the source code: https://github.com/Sir-Bobert-II/BOR"@
}

/// Describe who wrote the backend and where its source lives.
pub fn meta() -> (r: String)
    ensures
        r@ == meta_text(),
{
    let mut r = String::from_str("Written by:");
    r.append(" Decator <decator.c@proton.me>");
    r.append(".\nSee the source code: ");
    r.append("https://github.com/Sir-Bobert-II/BOR");
    proof {
        reveal_strlit("Written by:");
        reveal_strlit(" Decator <decator.c@proton.me>");
        reveal_strlit(".\nSee the source code: ");
        reveal_strlit("https://github.com/Sir-Bobert-II/BOR");
        reveal_strlit(
            "Written by: Decator <decator.c@proton.me>.\nSee the source code: https://github.com/Sir-Bobert-II/BOR",
        );
        assert(r@ =~= meta_text());
    }
    r
}

} // verus!
