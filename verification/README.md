# dpn-reader

A feed reader for the terminal, in the manner of newsboat. The logic of the
reader is a library that is verified with Verus.

- `src/` is the library. It reads lists of feeds (`opml`, `newsboat`) and feeds
  (`feed`), makes text of HTML (`html`, `entity`, `pattern`), finds images
  (`image`, `keep`), lays out articles and prompts (`article`, `wrap`, `prompt`), draws
  the screens (`screen`, `view`, `style`, `terminal`), makes documents of
  comments (`comment`) and decides what each key and each outcome leads to
  (`app`, `view`, `refresh`). What it needs to know of its surroundings it takes
  as plain values (`config`, `query`).
- `app/` is the program around it: the database, the network, the terminal.
- `tests/` are the tests of the library.

What the proofs rest on besides Verus are the contracts of the few functions
that call other crates or std: they are marked `external_body` or stand in an
`assume_specification`, each with a comment on what it claims.

## Keys

In the lists: `j`/`k` or the arrows move, `h`/`l` change the list, `n` goes to
the next unread article, `g` switches between the articles of a feed and those
of all feeds, `r` fetches the feeds, `/` searches, `a` adds a feed, `c` writes a
comment, `o` opens the article in a browser, Enter reads it and `q` quits.

While reading: `j`/`k` turn to the next and the previous article, the arrows
scroll, `c`, `o` as above, `i` shows the image of the article, `q` goes back.

## Environment

- `DPN_READER_DB`: the database (`~/.local/share/dpn-reader/dpn_reader.db`)
- `DPN_READER_OPML`, `DPN_READER_URLS`: lists of feeds for a new database. The
  first of these that names a feed is taken: the path in `DPN_READER_OPML`,
  `./feeds.opml`, the path in `DPN_READER_URLS`, `~/.newsboat/urls`.
- `DPN_READER_AUTO_REFRESH_SECS`: the seconds between two fetches (`900`)
- `DPN_API_URL`, `DPN_API_KEY`: where comments are sent
