# site

The verified core of a personal site that mirrors GitHub repositories and
serves their documentation.

A repository takes part by keeping `docs/overview.md`, whose JSON front
matter registers the sections (directories of `docs/`) and the markdown files
in them that the site publishes; the markdown after the front matter is the
project's home page. On every push to the default branch GitHub calls the
site's webhook; the site caches the repository's state and commit log in
Redis and re-renders the registered documentation files that changed.

`src/` is the library, verified with Verus:

* `docs_sync` — which registered files to re-cache after a push;
* `markdown` — rendering a page with comrak and outlining its headings;
* `reconcile` — the documentation sync as a state machine;
* `cache_event`, `keys` — what a push stores, and the names of cache keys and
  pub/sub channels (and reading channel names back);
* `webhook` — authenticating deliveries (HMAC-SHA256 over the body);
* `nav`, `ssr_state` — navigation links, breadcrumbs, and the server-side
  state pages are rendered from;
* `laws` — properties that span several operations.

`app/` is the server around it: Redis, HTTP, axum routes, JSON, and the
Leptos components.
