# quiche_apps

A verified library for two small HTTP/3 programs.

* `range`: HTTP byte ranges. It reads the `Range` header, resolves the ranges against a
  representation, decides what to serve, and assembles single and `multipart/byteranges` answers
  from the slices that its caller reads.
* `client`: a client that measures how a server honours request priorities. It decides what to do
  next on the socket, the connection and the HTTP/3 session, keeps a record of each stream, times
  priority updates, and judges the order in which responses were complete.

`app` is the program around it: the socket, the QUIC connection, files and printing.

Contracts are stated over spec functions. Statements on the library as a whole are the public proof
functions whose names start with `law_`.
