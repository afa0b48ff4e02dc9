# monologued

A finger (RFC 1288) server. The protocol logic is a Verus-verified
library under `src/`; `app/` holds the sockets, the poll loop, the
agents and the system lookups around it.

- `tokenpool`, `tokenqueue`: token allocators that hand out the lowest
  free token; laws that no token is ever held twice.
- `rfc1288`: the query grammar, as a spec function and a verified parser,
  with laws on trailing spaces, the case of the switch and the shape of
  the results.
- `text`, `monologue`, `transaction`, `echo`, `connection`: line
  splitting, what each service does about a query (the finger service
  looks up the user's plan and sends it), and the replies it sends.
- `cache`, `plans`, `plan`: a size-bounded LRU cache of plans and the
  rules for serving a `.plan` file.
- `reactor`, `server`: which agent or connection holds which token.
