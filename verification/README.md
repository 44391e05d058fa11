# proxynexus

Print-ready proxy cards from collections of card images: card lists, sets and
decklists are resolved against a game's catalog, a printing is chosen for each
card, and the images are laid out for MakePlayingCards (with bleed, card backs
and the `order.xml` of its autofill tool).

`src/` is the library, verified with Verus: card lists and their overrides,
printing selection, the catalogs each game adapter builds from its site's
data, card identity and titles (Arkham Horror, Lord of the Rings), card backs,
the MakePlayingCards plan and order file, bleed geometry and pixels, the SQL
the store issues, and the retry policy of catalog fetches. Calls into
`deunicode` and a few `std` functions sit behind small trusted wrappers in
`text.rs` and `card_store.rs`; `image_provider.rs` declares `std`'s `PathBuf`.

`app/` is the command line around it: the database (GlueSQL on sled), HTTP,
JSON, zip files and image decoding. It hands the library plain values and
acts on what the library decides.

`tests/` runs the library on concrete values.
