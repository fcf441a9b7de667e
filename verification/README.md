# semantic_tokens

The semantic tokens of shader documents, verified with Verus.

A language server answers a request for semantic tokens with one token for every
word of a document that it can classify. This library computes that answer:

- `token`: token types, positions, and tokens in absolute and relative form;
- `symbol`: a document, its symbols and its words, as plain values;
- `declaration`: the tokens of declarations, and the class of a word;
- `pattern`: the patterns that labels are searched with, and the calls into `regex`;
- `cache`: the cache of compiled patterns, and the calls into `lru`;
- `occurrence`: the tokens of macros, enums and identifiers in the content;
- `merge`: one token per text range, and the relative encoding;
- `server`: the answer for a whole document;
- `laws`: what holds of all of it together.

`app/` ties the library to the protocol types and to the files that a server
watches.
