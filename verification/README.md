# delinea

Recognizes hand-drawn diagrams (boxes, circles, diamonds) in a grayscale camera
frame and renders the recognized structure as [D2](https://d2lang.com)
diagram-as-code. The library is written in Verus: every function in `src/`
carries a contract that Verus proves.

- `src/model.rs`: the diagram model (shapes, bounding boxes, nodes, edges).
- `src/imaging.rs`: the grayscale frame, and the two calls into `imageproc`
  (binary thresholding and contour tracing), with their trusted contracts.
- `src/geometry.rs`: polygon area (shoelace formula) and bounding boxes.
- `src/pipeline.rs`: classification of contours by area and solidity, shape
  detection, and diagram building; laws on rectangles, diamonds and noise.
- `src/d2gen.rs`: D2 source generation; laws on node identifiers and lines.
- `app/`: the HTTP server that serves the browser front end, and that front end.
