# hurl_wasm

The client side of Hurl's WebAssembly build, as a Verus-verified library.

- `src/` is verified: header parsing (`header`), absolute URLs (`url`, over
  the `url` crate), URI-component encoding as `encodeURIComponent` does it
  (`uri`), cookie selection (`cookie`, `client::all_cookies`), the
  request URL and `Cookie` header (`client`), and the decisions taken
  between two calls while following redirections (`client::Client::redirect_step`).
  The browser console logger's lines (`web`), and the runner and formatter
  types (`wasm`, `hurlfmt`) are there too.
- `app/` holds the WebAssembly bindings: the `fetch` call itself, the loop
  that alternates calls and redirection decisions, console output, and the
  types exported to JavaScript.

Left out, because the code they call is not part of this project's sources
and can not be had as a dependency:

- `parse_hurl_file`, `parse_curl_file` and the formatter's methods of the same
  names: they call the Hurl parser (`hurl_core`, a crate of Hurl's own
  workspace) and the formatter's own `curl` and `format` modules.
- `Client::curl_command_line`: it builds Hurl's own `CurlCmd`.
- `HeaderVec::to_curl_headers`: it only exists off the WebAssembly target,
  and does nothing there.
